//! Prompt intake: which agent and model a prompt goes to, what is stored of it,
//! and what its parts turn into.

use crate::permission::{rules, Action, Rule, RuleView, Ruleset};
use crate::provider::{Model, ModelView, Registry};
use crate::runner::PromptError;
use crate::session::{
    agent_at, find_agent, Agent, ModelRef, OutputFormat, Part, PartKind, SessionInfo, SessionModel, UserMessage,
};
use crate::json::{json_string, quoted};
use crate::paths::{resolve_path, resolved};
use crate::text::{
    after_char, after_prefix, before_char, chars_of, copy_opt, find_char, first_of, from_utf8, has_prefix, has_text,
    lemma_first_of, opt_text, same, starts_with,
};
use vstd::prelude::*;

verus! {

/// A part as a client sends it.
#[derive(Debug)]
pub enum PartInput {
    Text { id: Option<String>, text: String, synthetic: bool, ignored: bool },
    Agent { id: Option<String>, name: String, source: Option<String> },
    Subtask {
        id: Option<String>,
        prompt: String,
        description: String,
        agent: String,
        model: Option<ModelRef>,
        command: Option<String>,
    },
    File {
        id: Option<String>,
        mime: String,
        filename: Option<String>,
        url: String,
        source: Option<String>,
    },
}

#[derive(Debug)]
pub struct PromptRequest {
    pub message_id: Option<String>,
    pub agent: Option<String>,
    pub model: Option<ModelRef>,
    pub variant: Option<String>,
    pub format: Option<OutputFormat>,
    pub system: Option<String>,
    pub tools: Option<Vec<(String, bool)>>,
    pub no_reply: bool,
}

// ───────────────────────────── agent and model ─────────────────────────────

/// Which agent takes a prompt: the one asked for, else the session's where it
/// still exists, else the default. Nobody where the one asked for does not exist.
pub open spec fn agent_for(
    agents: Seq<Agent>,
    fallback: int,
    requested: Option<String>,
    session_agent: Option<String>,
) -> Option<int> {
    match requested {
        Some(name) => agent_at(agents, name@),
        None => match session_agent {
            Some(name) => match agent_at(agents, name@) {
                Some(i) => Some(i),
                None => Some(fallback),
            },
            None => Some(fallback),
        },
    }
}

pub fn choose_agent(
    agents: &Vec<Agent>,
    fallback: usize,
    requested: &Option<String>,
    session_agent: &Option<String>,
) -> (r: Result<usize, PromptError>)
    requires
        fallback < agents@.len(),
    ensures
        match r {
            Ok(i) => i < agents@.len() && agent_for(
                agents@,
                fallback as int,
                *requested,
                *session_agent,
            ) == Some(i as int),
            Err(PromptError::AgentNotFound(name)) => requested matches Some(n) && n@ == name@
                && agent_at(agents@, name@) is None,
            Err(_) => false,
        },
{
    match requested {
        Some(name) => match find_agent(agents, name.as_str()) {
            Some(i) => Ok(i),
            None => Err(PromptError::AgentNotFound(name.clone())),
        },
        None => match session_agent {
            Some(name) => match find_agent(agents, name.as_str()) {
                Some(i) => Ok(i),
                None => Ok(fallback),
            },
            None => Ok(fallback),
        },
    }
}

pub open spec fn no_provider() -> Seq<char> {
    "no provider is configured. Run `lz auth login` or set an API key env var"@
}

pub open spec fn model_of_ref(reg: Registry, r: Option<ModelRef>) -> Option<ModelView> {
    match r {
        Some(r) => reg.found(r.provider_id@, r.model_id@),
        None => None,
    }
}

pub open spec fn model_of_session(reg: Registry, m: Option<SessionModel>) -> Option<ModelView> {
    match m {
        Some(m) => reg.found(m.provider_id@, m.id@),
        None => None,
    }
}

/// The model for a new prompt: the one asked for, else the agent's, else the
/// session's last, else the default one. Otherwise why there is none.
pub open spec fn model_for(
    reg: Registry,
    requested: Option<ModelRef>,
    agent_model: Option<ModelRef>,
    session_model: Option<SessionModel>,
    fallback: Option<ModelView>,
) -> Result<ModelView, Seq<char>> {
    match requested {
        Some(r) => match reg.found(r.provider_id@, r.model_id@) {
            Some(m) => Ok(m),
            None => Err(r.provider_id@ + "/"@ + r.model_id@),
        },
        None => match model_of_ref(reg, agent_model) {
            Some(m) => Ok(m),
            None => match model_of_session(reg, session_model) {
                Some(m) => Ok(m),
                None => match fallback {
                    Some(m) => Ok(m),
                    None => Err(no_provider()),
                },
            },
        },
    }
}

pub open spec fn opt_model(m: Option<&Model>) -> Option<ModelView> {
    match m {
        Some(m) => Some(m@),
        None => None,
    }
}

/// Resolve the model for a new prompt: explicit → agent default → session's
/// last model → global default.
pub fn resolve_model(
    registry: &Registry,
    session: &SessionInfo,
    agent: &Agent,
    requested: &Option<ModelRef>,
    fallback: Option<&Model>,
) -> (r: Result<Model, PromptError>)
    ensures
        match r {
            Ok(m) => model_for(*registry, *requested, agent.model, session.model, opt_model(fallback))
                == Ok::<ModelView, Seq<char>>(m@),
            Err(PromptError::NoModel(why)) => model_for(
                *registry,
                *requested,
                agent.model,
                session.model,
                opt_model(fallback),
            ) == Err::<ModelView, Seq<char>>(why@),
            Err(_) => false,
        },
{
    if let Some(r) = requested {
        return match registry.get(r.provider_id.as_str(), r.model_id.as_str()) {
            Some(m) => Ok(m.clone()),
            None => {
                let mut name = r.provider_id.clone();
                name.append("/");
                name.append(r.model_id.as_str());
                Err(PromptError::NoModel(name))
            },
        };
    }
    if let Some(r) = &agent.model {
        if let Some(m) = registry.get(r.provider_id.as_str(), r.model_id.as_str()) {
            return Ok(m.clone());
        }
    }
    if let Some(s) = &session.model {
        if let Some(m) = registry.get(s.provider_id.as_str(), s.id.as_str()) {
            return Ok(m.clone());
        }
    }
    match fallback {
        Some(m) => Ok(m.clone()),
        None => Err(
            PromptError::NoModel(
                "no provider is configured. Run `lz auth login` or set an API key env var".to_owned(),
            ),
        ),
    }
}

/// The variant that was asked for, else the agent's where the model has it.
pub open spec fn variant_for(requested: Option<String>, agent: Option<String>, m: ModelView) -> Option<
    Seq<char>,
> {
    match requested {
        Some(v) => Some(v@),
        None => match agent {
            Some(v) => if m.variants.contains(v@) {
                Some(v@)
            } else {
                None
            },
            None => None,
        },
    }
}

fn choose_variant(requested: &Option<String>, agent: &Option<String>, m: &Model) -> (r: Option<String>)
    ensures
        opt_text(r) == variant_for(*requested, *agent, m@),
{
    match requested {
        Some(v) => Some(v.clone()),
        None => match agent {
            Some(v) => if has_text(&m.variants, v.as_str()) {
                Some(v.clone())
            } else {
                None
            },
            None => None,
        },
    }
}

// ───────────────────────────── tool toggles ─────────────────────────────

/// The rule that a tool toggle turns into. The tools that write files share one
/// permission.
pub open spec fn toggle_rule(tool: Seq<char>, enabled: bool) -> RuleView {
    RuleView {
        permission: if tool == "write"@ || tool == "edit"@ || tool == "patch"@ {
            "edit"@
        } else {
            tool
        },
        pattern: "*"@,
        action: if enabled {
            Action::Allow
        } else {
            Action::Deny
        },
    }
}

pub open spec fn toggle_rules(tools: Seq<(String, bool)>) -> Seq<RuleView> {
    Seq::new(tools.len(), |i: int| toggle_rule(tools[i].0@, tools[i].1))
}

/// Per-prompt tool toggles as a session-level ruleset.
pub fn rules_of_toggles(tools: &Vec<(String, bool)>) -> (r: Ruleset)
    ensures
        rules(r@) == toggle_rules(tools@),
{
    let mut out: Ruleset = Vec::new();
    let mut i: usize = 0;
    while i < tools.len()
        invariant
            i <= tools@.len(),
            out@.len() == i,
            forall|k: int|
                0 <= k < i ==> (#[trigger] out@[k])@ == toggle_rule(tools@[k].0@, tools@[k].1),
        decreases tools@.len() - i,
    {
        let tool = tools[i].0.as_str();
        let action = if tools[i].1 {
            Action::Allow
        } else {
            Action::Deny
        };
        let key = if same(tool, "write") || same(tool, "edit") || same(tool, "patch") {
            "edit"
        } else {
            tool
        };
        out.push(Rule::new(key, "*", action));
        i += 1;
    }
    assert(rules(out@) =~= toggle_rules(tools@));
    out
}

fn copy_toggles(tools: &Option<Vec<(String, bool)>>) -> (r: Option<Vec<(String, bool)>>)
    ensures
        match (*tools, r) {
            (Some(a), Some(b)) => a@ == b@,
            (None, None) => true,
            _ => false,
        },
{
    match tools {
        Some(t) => {
            let mut out: Vec<(String, bool)> = Vec::new();
            let mut i: usize = 0;
            while i < t.len()
                invariant
                    i <= t@.len(),
                    out@ == t@.take(i as int),
                decreases t@.len() - i,
            {
                out.push((t[i].0.clone(), t[i].1));
                assert(t@.take(i + 1) =~= t@.take(i as int).push(t@[i as int]));
                i += 1;
            }
            assert(t@.take(i as int) =~= t@);
            Some(out)
        },
        None => None,
    }
}

// ───────────────────────────── the prompt ─────────────────────────────

/// What a prompt leads to.
pub struct PromptPlan {
    /// the user message to store
    pub info: UserMessage,
    /// the agent and model to remember on the session, where they changed
    pub remember: Option<(String, SessionModel)>,
    /// the session-level rules to set
    pub rules: Option<Ruleset>,
    /// whether to run the loop
    pub run: bool,
}

/// Whether the session already goes by this agent and model.
pub open spec fn remembers(session: SessionInfo, agent: Seq<char>, m: ModelView) -> bool {
    &&& session.agent matches Some(a) && a@ == agent
    &&& session.model matches Some(s) && s.provider_id@ == m.provider_id && s.id@ == m.id
}

/// What is stored of a prompt to `agent` on model `m`.
pub open spec fn is_user_message(
    info: UserMessage,
    session_id: Seq<char>,
    req: PromptRequest,
    agent: Agent,
    m: ModelView,
    fresh_id: Seq<char>,
    now: u64,
) -> bool {
    &&& info.id@ == (match req.message_id {
        Some(id) => id@,
        None => fresh_id,
    })
    &&& info.session_id@ == session_id
    &&& info.created == now
    &&& info.format == req.format
    &&& info.agent@ == agent.name@
    &&& info.model.provider_id@ == m.provider_id
    &&& info.model.model_id@ == m.id
    &&& opt_text(info.model.variant) == variant_for(req.variant, agent.variant, m)
    &&& info.system == req.system
    &&& match (req.tools, info.tools) {
        (Some(a), Some(b)) => a@ == b@,
        (None, None) => true,
        _ => false,
    }
}

pub open spec fn is_plan(
    plan: PromptPlan,
    session: SessionInfo,
    session_id: Seq<char>,
    req: PromptRequest,
    agent: Agent,
    m: ModelView,
    fresh_id: Seq<char>,
    now: u64,
) -> bool {
    &&& is_user_message(plan.info, session_id, req, agent, m, fresh_id, now)
    &&& match plan.remember {
        Some(r) => !remembers(session, agent.name@, m) && r.0@ == agent.name@ && r.1.id@ == m.id
            && r.1.provider_id@ == m.provider_id && opt_text(r.1.variant) == variant_for(
            req.variant,
            agent.variant,
            m,
        ),
        None => remembers(session, agent.name@, m),
    }
    &&& match (plan.rules, req.tools) {
        (Some(r), Some(t)) => rules(r@) == toggle_rules(t@),
        (None, None) => true,
        _ => false,
    }
    &&& plan.run == !req.no_reply
}

/// Settle what a prompt leads to. `agents[fallback]` is the default agent,
/// `default_model` the default model, and `fresh_id` an unused message id.
pub fn prompt(
    session: &SessionInfo,
    session_id: &str,
    req: &PromptRequest,
    agents: &Vec<Agent>,
    fallback: usize,
    registry: &Registry,
    default_model: Option<&Model>,
    fresh_id: String,
    now: u64,
) -> (r: Result<PromptPlan, PromptError>)
    requires
        fallback < agents@.len(),
    ensures
        ({
            let chosen = agent_for(agents@, fallback as int, req.agent, session.agent);
            let settled = model_for(
                *registry,
                req.model,
                agents@[chosen->0].model,
                session.model,
                opt_model(default_model),
            );
            match r {
                Ok(plan) => chosen is Some && (settled matches Ok(m) && is_plan(
                    plan,
                    *session,
                    session_id@,
                    *req,
                    agents@[chosen->0],
                    m,
                    fresh_id@,
                    now,
                )),
                Err(PromptError::AgentNotFound(name)) => chosen is None && (req.agent matches Some(
                    n,
                ) && n@ == name@),
                Err(PromptError::NoModel(why)) => chosen is Some && settled == Err::<
                    ModelView,
                    Seq<char>,
                >(why@),
                Err(_) => false,
            }
        }),
{
    let at = match choose_agent(agents, fallback, &req.agent, &session.agent) {
        Ok(i) => i,
        Err(e) => {
            return Err(e);
        },
    };
    let agent = &agents[at];
    let model = match resolve_model(registry, session, agent, &req.model, default_model) {
        Ok(m) => m,
        Err(e) => {
            return Err(e);
        },
    };
    let variant = choose_variant(&req.variant, &agent.variant, &model);
    let id = match &req.message_id {
        Some(id) => id.clone(),
        None => fresh_id,
    };
    let format = match &req.format {
        Some(f) => Some(f.clone()),
        None => None,
    };
    let info = UserMessage {
        id,
        session_id: session_id.to_owned(),
        created: now,
        format,
        agent: agent.name.clone(),
        model: ModelRef {
            provider_id: model.provider_id.clone(),
            model_id: model.id.clone(),
            variant: copy_opt(&variant),
        },
        system: copy_opt(&req.system),
        tools: copy_toggles(&req.tools),
    };
    let same_agent = match &session.agent {
        Some(a) => same(a.as_str(), agent.name.as_str()),
        None => false,
    };
    let same_model = match &session.model {
        Some(m) => same(m.provider_id.as_str(), model.provider_id.as_str()) && same(
            m.id.as_str(),
            model.id.as_str(),
        ),
        None => false,
    };
    let remember = if same_agent && same_model {
        None
    } else {
        Some(
            (
                agent.name.clone(),
                SessionModel {
                    id: model.id.clone(),
                    provider_id: model.provider_id.clone(),
                    variant,
                },
            ),
        )
    };
    let rules = match &req.tools {
        Some(t) => Some(rules_of_toggles(t)),
        None => None,
    };
    Ok(PromptPlan { info, remember, rules, run: !req.no_reply })
}

// ───────────────────────────── base64 ─────────────────────────────

/// The value of a base64 digit.
pub open spec fn sextet(c: char) -> Option<int> {
    if 'A' <= c <= 'Z' {
        Some(c as int - 'A' as int)
    } else if 'a' <= c <= 'z' {
        Some(26 + c as int - 'a' as int)
    } else if '0' <= c <= '9' {
        Some(52 + c as int - '0' as int)
    } else if c == '+' {
        Some(62)
    } else if c == '/' {
        Some(63)
    } else {
        None
    }
}

/// The bytes that a row of base64 digits stands for: four digits make three
/// bytes, and bits that do not fill a byte are dropped.
pub open spec fn sextet_bytes(v: Seq<int>) -> Seq<u8> {
    Seq::new(
        v.len() * 3 / 4,
        |k: int|
            {
                let j = 4 * (k / 3);
                (if k % 3 == 0 {
                    v[j] * 4 + v[j + 1] / 16
                } else if k % 3 == 1 {
                    (v[j + 1] % 16) * 16 + v[j + 2] / 4
                } else {
                    (v[j + 2] % 4) * 64 + v[j + 3]
                }) as u8
            },
    )
}

pub open spec fn all_digits(s: Seq<char>) -> bool {
    forall|i: int| 0 <= i < s.len() ==> sextet(#[trigger] s[i]) is Some
}

pub open spec fn sextets(s: Seq<char>) -> Seq<int> {
    Seq::new(s.len(), |i: int| sextet(s[i])->0)
}

/// The text that base64 stands for: what comes before the padding must be
/// digits, and the bytes well-formed UTF-8.
pub open spec fn base64_text(s: Seq<char>) -> Option<Seq<char>> {
    let body = s.take(first_of(s, '='));
    let bytes = sextet_bytes(sextets(body));
    if all_digits(body) && vstd::utf8::valid_utf8(bytes) {
        Some(vstd::utf8::decode_utf8(bytes))
    } else {
        None
    }
}

fn sextet_of(c: char) -> (r: Option<u8>)
    ensures
        match r {
            Some(v) => v < 64 && sextet(c) == Some(v as int),
            None => sextet(c) is None,
        },
{
    if 'A' <= c && c <= 'Z' {
        Some(c as u8 - 'A' as u8)
    } else if 'a' <= c && c <= 'z' {
        Some(26 + (c as u8 - 'a' as u8))
    } else if '0' <= c && c <= '9' {
        Some(52 + (c as u8 - '0' as u8))
    } else if c == '+' {
        Some(62)
    } else if c == '/' {
        Some(63)
    } else {
        None
    }
}

pub fn base64_decode(s: &str) -> (r: Option<String>)
    ensures
        opt_text(r) == base64_text(s@),
{
    let v = chars_of(s);
    let n = find_char(&v, '=');
    proof {
        lemma_first_of(s@, '=');
    }
    let ghost body = s@.take(n as int);
    let mut out: Vec<u8> = Vec::new();
    let mut last: u8 = 0;
    let mut i: usize = 0;
    while i < n
        invariant
            i <= n <= v@.len(),
            v@ == s@,
            body == s@.take(n as int),
            n == first_of(s@, '='),
            forall|k: int| 0 <= k < i ==> sextet(#[trigger] body[k]) is Some,
            i > 0 ==> last < 64 && sextet(body[i - 1]) == Some(last as int),
            out@.len() == i * 3 / 4,
            forall|k: int|
                0 <= k < out@.len() ==> #[trigger] out@[k] == sextet_bytes(sextets(body))[k],
        decreases n - i,
    {
        let c = v[i];
        assert(body[i as int] == c);
        let d = match sextet_of(c) {
            Some(d) => d,
            None => {
                return None;
            },
        };
        let ghost w = sextets(body);
        let ghost k = out@.len() as int;
        proof {
            assert(w[i as int] == d);
            if i > 0 {
                assert(w[i - 1] == last);
            }
            assert(sextet_bytes(w).len() == n as int * 3 / 4);
            if i % 4 != 0 {
                assert(k < sextet_bytes(w).len());
            }
        }
        if i % 4 == 1 {
            let b: u8 = last * 4 + d / 16;
            assert(k % 3 == 0 && 4 * (k / 3) == i - 1);
            assert(b == sextet_bytes(w)[k]);
            out.push(b);
        } else if i % 4 == 2 {
            let b: u8 = (last % 16) * 16 + d / 4;
            assert(k % 3 == 1 && 4 * (k / 3) == i - 2);
            assert(b == sextet_bytes(w)[k]);
            out.push(b);
        } else if i % 4 == 3 {
            let b: u8 = (last % 4) * 64 + d;
            assert(k % 3 == 2 && 4 * (k / 3) == i - 3);
            assert(b == sextet_bytes(w)[k]);
            out.push(b);
        }
        last = d;
        i += 1;
    }
    assert(out@ =~= sextet_bytes(sextets(body)));
    from_utf8(out)
}

// ───────────────────────────── parts ─────────────────────────────

/// Ids that no part has yet, for the parts that one input may turn into.
pub struct FreshIds {
    pub part: String,
    pub call: String,
    pub content: String,
}

/// A part of the user message `info`.
pub open spec fn belongs(p: Part, info: UserMessage) -> bool {
    p.session_id@ == info.session_id@ && p.message_id@ == info.id@
}

pub open spec fn is_text_part(p: Part, info: UserMessage, id: Seq<char>, text: Seq<char>) -> bool {
    &&& belongs(p, info)
    &&& p.id@ == id
    &&& p.kind matches PartKind::Text { text: t, synthetic, ignored } && t@ == text && synthetic
        && !ignored
}

/// A text that was put there on the user's behalf.
fn mk_text(info: &UserMessage, id: String, text: String) -> (p: Part)
    ensures
        is_text_part(p, *info, id@, text@),
{
    Part {
        id,
        session_id: info.session_id.clone(),
        message_id: info.id.clone(),
        kind: PartKind::Text { text, synthetic: true, ignored: false },
    }
}

pub open spec fn id_of(id: Option<String>, fresh: String) -> Seq<char> {
    match id {
        Some(id) => id@,
        None => fresh@,
    }
}

/// What a part input turns into, before anything is read from disk.
pub enum PartStep {
    /// these parts
    Parts(Vec<Part>),
    /// the file or directory at this path has to be looked at
    Look(String),
}

/// What was found at a path.
pub enum FileLook {
    Directory { listing: String },
    Text { text: String },
    Binary { mime: String, data_url: String },
    Failed { error: String },
}

/// The path behind a `file://` url, without a query.
pub open spec fn file_url_path(url: Seq<char>) -> Option<Seq<char>> {
    if starts_with(url, "file://"@) {
        let rest = url.skip("file://"@.len() as int);
        Some(rest.take(first_of(rest, '?')))
    } else {
        None
    }
}

/// What follows the first comma of a `data:` url.
pub open spec fn data_url_payload(url: Seq<char>) -> Option<Seq<char>> {
    if starts_with(url, "data:"@) && first_of(url, ',') < url.len() {
        Some(url.skip(first_of(url, ',') + 1))
    } else {
        None
    }
}

pub open spec fn or_empty(t: Option<Seq<char>>) -> Seq<char> {
    match t {
        Some(t) => t,
        None => Seq::empty(),
    }
}

pub open spec fn called_read() -> Seq<char> {
    "Called the Read tool with the following input: {\"filePath\":"@
}

/// What is said in place of the read call that the user made by attaching a file.
pub open spec fn read_call(path_json: Seq<char>) -> Seq<char> {
    called_read() + path_json + "}"@
}

pub open spec fn is_file_part(
    p: Part,
    info: UserMessage,
    id: Seq<char>,
    file: PartInput,
    mime: Seq<char>,
    url: Seq<char>,
) -> bool {
    &&& belongs(p, info)
    &&& p.id@ == id
    &&& p.kind matches PartKind::File { mime: m, filename: f, url: u, source: s } && m@ == mime
        && u@ == url && (file matches PartInput::File { filename, source, .. } && opt_text(f)
        == opt_text(filename) && opt_text(s) == opt_text(source))
}

/// What an input that needs nothing from disk turns into.
pub open spec fn are_parts(parts: Seq<Part>, info: UserMessage, input: PartInput, ids: FreshIds) -> bool {
    match input {
        PartInput::Text { id, text, synthetic, ignored } => {
            &&& parts.len() == 1
            &&& belongs(parts[0], info)
            &&& parts[0].id@ == id_of(id, ids.part)
            &&& parts[0].kind matches PartKind::Text { text: t, synthetic: s, ignored: g } && t@
                == text@ && s == synthetic && g == ignored
        },
        PartInput::Agent { id, name, source } => {
            &&& parts.len() == 1
            &&& belongs(parts[0], info)
            &&& parts[0].id@ == id_of(id, ids.part)
            &&& parts[0].kind matches PartKind::Agent { name: n, source: s } && n@ == name@
                && opt_text(s) == opt_text(source)
        },
        PartInput::Subtask { id, prompt, description, agent, model, command } => {
            &&& parts.len() == 1
            &&& belongs(parts[0], info)
            &&& parts[0].id@ == id_of(id, ids.part)
            &&& parts[0].kind == (PartKind::Subtask { prompt, description, agent, model, command })
        },
        PartInput::File { id, mime, filename, url, source } => if mime@ == "text/plain"@
            && data_url_payload(url@) is Some {
            &&& parts.len() == 3
            &&& is_text_part(
                parts[0],
                info,
                ids.call@,
                read_call(quoted(or_empty(opt_text(filename)))),
            )
            &&& is_text_part(
                parts[1],
                info,
                ids.content@,
                or_empty(base64_text(data_url_payload(url@)->0)),
            )
            &&& is_file_part(parts[2], info, id_of(id, ids.part), input, mime@, url@)
        } else {
            &&& parts.len() == 1
            &&& is_file_part(parts[0], info, id_of(id, ids.part), input, mime@, url@)
        },
    }
}

/// Turn a client part into stored parts. Text files are inlined as synthetic
/// text (mirroring a `read` call) so the model sees the content directly; what
/// lies on disk has to be looked at first.
pub fn resolve_part(
    info: &UserMessage,
    input: PartInput,
    ids: FreshIds,
    home: &str,
    directory: &str,
) -> (r: PartStep)
    ensures
        match r {
            PartStep::Look(path) => input matches PartInput::File { url, .. } && file_url_path(
                url@,
            ) is Some && path@ == resolved(file_url_path(url@)->0, home@, directory@),
            PartStep::Parts(parts) => are_parts(parts@, *info, input, ids) && (input matches PartInput::File {
                url,
                ..
            } ==> file_url_path(url@) is None),
        },
{
    let ghost given = input;
    let mut out: Vec<Part> = Vec::new();
    match input {
        PartInput::Text { id, text, synthetic, ignored } => {
            let kind = PartKind::Text { text, synthetic, ignored };
            out.push(part_of(info, id, ids.part, kind));
        },
        PartInput::Agent { id, name, source } => {
            let kind = PartKind::Agent { name, source };
            out.push(part_of(info, id, ids.part, kind));
        },
        PartInput::Subtask { id, prompt, description, agent, model, command } => {
            let kind = PartKind::Subtask { prompt, description, agent, model, command };
            out.push(part_of(info, id, ids.part, kind));
        },
        PartInput::File { id, mime, filename, url, source } => {
            if let Some(rest) = after_prefix(url.as_str(), "file://") {
                let path = before_char(rest.as_str(), '?');
                return PartStep::Look(resolve_path(path.as_str(), home, directory));
            }
            if has_prefix(url.as_str(), "data:") && same(mime.as_str(), "text/plain") {
                if let Some(data) = after_char(url.as_str(), ',') {
                    let text = match base64_decode(data.as_str()) {
                        Some(t) => t,
                        None => String::new(),
                    };
                    let name = match &filename {
                        Some(f) => f.clone(),
                        None => String::new(),
                    };
                    let mut call = "Called the Read tool with the following input: {\"filePath\":".to_owned();
                    call.append(json_string(name.as_str()).as_str());
                    call.append("}");
                    out.push(mk_text(info, ids.call, call));
                    out.push(mk_text(info, ids.content, text));
                }
            }
            let kind = PartKind::File { mime, filename, url, source };
            out.push(part_of(info, id, ids.part, kind));
        },
    }
    PartStep::Parts(out)
}

fn part_of(info: &UserMessage, id: Option<String>, fresh: String, kind: PartKind) -> (p: Part)
    ensures
        belongs(p, *info),
        p.id@ == id_of(id, fresh),
        p.kind == kind,
{
    let id = match id {
        Some(id) => id,
        None => fresh,
    };
    Part { id, session_id: info.session_id.clone(), message_id: info.id.clone(), kind }
}

/// What an attached file turns into, once it was looked at.
pub open spec fn are_file_parts(
    parts: Seq<Part>,
    info: UserMessage,
    input: PartInput,
    ids: FreshIds,
    path: Seq<char>,
    look: FileLook,
) -> bool {
    input matches PartInput::File { id, url, .. } && match look {
        FileLook::Directory { listing } => {
            &&& parts.len() == 3
            &&& is_text_part(parts[0], info, ids.call@, read_call("\""@ + path + "\""@))
            &&& is_text_part(parts[1], info, ids.content@, listing@)
            &&& is_file_part(
                parts[2],
                info,
                id_of(id, ids.part),
                input,
                "application/x-directory"@,
                url@,
            )
        },
        FileLook::Text { text } => {
            &&& parts.len() == 3
            &&& is_text_part(parts[0], info, ids.call@, read_call("\""@ + path + "\""@))
            &&& is_text_part(parts[1], info, ids.content@, text@)
            &&& is_file_part(parts[2], info, id_of(id, ids.part), input, "text/plain"@, url@)
        },
        FileLook::Binary { mime, data_url } => {
            &&& parts.len() == 1
            &&& is_file_part(parts[0], info, id_of(id, ids.part), input, mime@, data_url@)
        },
        FileLook::Failed { error } => {
            &&& parts.len() == 1
            &&& is_text_part(
                parts[0],
                info,
                ids.call@,
                "[Failed to read file "@ + path + ": "@ + error@ + "]"@,
            )
        },
    }
}

/// Turn an attached file into stored parts, by what was found at its path. A
/// failure is told in place of the content; the session is to hear of it too.
pub fn resolve_file(
    info: &UserMessage,
    input: PartInput,
    ids: FreshIds,
    path: &str,
    look: FileLook,
) -> (r: Vec<Part>)
    requires
        input is File,
    ensures
        are_file_parts(r@, *info, input, ids, path@, look),
{
    let mut out: Vec<Part> = Vec::new();
    if let PartInput::File { id, mime: _, filename, url, source } = input {
        let mut call = "Called the Read tool with the following input: {\"filePath\":".to_owned();
        call.append("\"");
        call.append(path);
        call.append("\"");
        call.append("}");
        assert(call@ =~= read_call("\""@ + path@ + "\""@));
        match look {
            FileLook::Directory { listing } => {
                out.push(mk_text(info, ids.call, call));
                out.push(mk_text(info, ids.content, listing));
                let mime = "application/x-directory".to_owned();
                let kind = PartKind::File { mime, filename, url, source };
                out.push(part_of(info, id, ids.part, kind));
            },
            FileLook::Text { text } => {
                out.push(mk_text(info, ids.call, call));
                out.push(mk_text(info, ids.content, text));
                let mime = "text/plain".to_owned();
                let kind = PartKind::File { mime, filename, url, source };
                out.push(part_of(info, id, ids.part, kind));
            },
            FileLook::Binary { mime, data_url } => {
                let kind = PartKind::File { mime, filename, url: data_url, source };
                out.push(part_of(info, id, ids.part, kind));
            },
            FileLook::Failed { error } => {
                let mut text = "[Failed to read file ".to_owned();
                text.append(path);
                text.append(": ");
                text.append(error.as_str());
                text.append("]");
                out.push(mk_text(info, ids.call, text));
            },
        }
    }
    out
}

} // verus!
