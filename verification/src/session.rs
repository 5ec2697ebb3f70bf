//! Sessions, their messages and the parts that messages are made of.

use crate::permission::Ruleset;
use crate::text::{copy_opt, join, joined, same, texts};
use vstd::prelude::*;

verus! {

/// A model as a message names it.
#[derive(Debug)]
pub struct ModelRef {
    pub provider_id: String,
    pub model_id: String,
    pub variant: Option<String>,
}

impl Clone for ModelRef {
    fn clone(&self) -> (r: Self)
        ensures
            r == *self,
    {
        ModelRef {
            provider_id: self.provider_id.clone(),
            model_id: self.model_id.clone(),
            variant: copy_opt(&self.variant),
        }
    }
}

/// What form the reply shall have. A schema is held as JSON text.
#[derive(Debug)]
pub enum OutputFormat {
    Text,
    JsonSchema { schema: String },
}

impl Clone for OutputFormat {
    fn clone(&self) -> (r: Self)
        ensures
            r == *self,
    {
        match self {
            OutputFormat::Text => OutputFormat::Text,
            OutputFormat::JsonSchema { schema } => OutputFormat::JsonSchema {
                schema: schema.clone(),
            },
        }
    }
}

#[derive(Debug)]
pub struct UserMessage {
    pub id: String,
    pub session_id: String,
    pub created: u64,
    pub format: Option<OutputFormat>,
    pub agent: String,
    pub model: ModelRef,
    pub system: Option<String>,
    /// tools switched on and off for this prompt
    pub tools: Option<Vec<(String, bool)>>,
}

#[derive(Debug)]
pub enum MessageError {
    Unknown { message: String },
    ContentFilter { message: String },
    StructuredOutput { message: String, retries: u32 },
    /// an error that the provider reported
    Api { message: String },
}

impl Clone for MessageError {
    fn clone(&self) -> (r: Self)
        ensures
            r == *self,
    {
        match self {
            MessageError::Unknown { message } => MessageError::Unknown { message: message.clone() },
            MessageError::ContentFilter { message } => MessageError::ContentFilter {
                message: message.clone(),
            },
            MessageError::StructuredOutput { message, retries } => MessageError::StructuredOutput {
                message: message.clone(),
                retries: *retries,
            },
            MessageError::Api { message } => MessageError::Api { message: message.clone() },
        }
    }
}

impl MessageError {
    pub open spec fn text(self) -> Seq<char> {
        match self {
            MessageError::Unknown { message } => message@,
            MessageError::ContentFilter { message } => message@,
            MessageError::StructuredOutput { message, .. } => message@,
            MessageError::Api { message } => message@,
        }
    }

    pub fn message(&self) -> (r: &String)
        ensures
            r@ == self.text(),
    {
        match self {
            MessageError::Unknown { message } => message,
            MessageError::ContentFilter { message } => message,
            MessageError::StructuredOutput { message, .. } => message,
            MessageError::Api { message } => message,
        }
    }
}

/// Tokens that a step used.
#[derive(Debug, Clone, Copy, PartialEq, Eq, Structural)]
pub struct Tokens {
    /// all that counts against the context window
    pub effective_total: u64,
}

#[derive(Debug)]
pub struct AssistantMessage {
    pub id: String,
    pub session_id: String,
    pub created: u64,
    pub completed: Option<u64>,
    pub error: Option<MessageError>,
    pub parent_id: String,
    pub model_id: String,
    pub provider_id: String,
    pub mode: String,
    pub agent: String,
    pub cwd: String,
    pub root: String,
    pub summary: Option<bool>,
    pub tokens: Tokens,
    /// the structured reply, as JSON text
    pub structured: Option<String>,
    pub variant: Option<String>,
    pub finish: Option<String>,
}

#[derive(Debug)]
pub enum Message {
    User(UserMessage),
    Assistant(AssistantMessage),
}

impl Message {
    pub open spec fn spec_id(self) -> Seq<char> {
        match self {
            Message::User(m) => m.id@,
            Message::Assistant(m) => m.id@,
        }
    }

    pub fn id(&self) -> (r: &String)
        ensures
            r@ == self.spec_id(),
    {
        match self {
            Message::User(m) => &m.id,
            Message::Assistant(m) => &m.id,
        }
    }
}

/// How far a tool call has come.
#[derive(Debug)]
pub enum ToolState {
    Pending,
    Running,
    Completed {
        output: String,
        /// the output was dropped to save room
        compacted: bool,
        /// files whose instructions came along with the result
        loaded: Option<Vec<String>>,
    },
    Error {
        error: String,
        /// the call was cut off, not refused or failed
        interrupted: bool,
    },
}

#[derive(Debug)]
pub enum PartKind {
    Text { text: String, synthetic: bool, ignored: bool },
    Reasoning { text: String },
    Tool { tool: String, state: ToolState },
    File { mime: String, filename: Option<String>, url: String, source: Option<String> },
    Agent { name: String, source: Option<String> },
    Subtask {
        prompt: String,
        description: String,
        agent: String,
        model: Option<ModelRef>,
        command: Option<String>,
    },
    Compaction { auto: bool, overflow: Option<bool> },
    StepStart { snapshot: Option<String> },
    /// a part that no decision looks into
    Other,
}

#[derive(Debug)]
pub struct Part {
    pub id: String,
    pub session_id: String,
    pub message_id: String,
    pub kind: PartKind,
}

#[derive(Debug)]
pub struct MessageWithParts {
    pub info: Message,
    pub parts: Vec<Part>,
}

/// The model that a session used last.
#[derive(Debug)]
pub struct SessionModel {
    pub id: String,
    pub provider_id: String,
    pub variant: Option<String>,
}

pub struct SessionInfo {
    pub id: String,
    pub parent_id: Option<String>,
    pub title: String,
    pub agent: Option<String>,
    pub model: Option<SessionModel>,
    pub permission: Option<Ruleset>,
    /// whether a revert is pending
    pub reverted: bool,
    pub archived: Option<u64>,
}

/// Who may call on an agent: the user, other agents, or both.
#[derive(Debug, Clone, Copy, PartialEq, Eq, Structural)]
pub enum AgentMode {
    Primary,
    Subagent,
    All,
}

/// An agent: a prompt with its permissions and defaults.
pub struct Agent {
    pub name: String,
    pub description: Option<String>,
    pub mode: AgentMode,
    pub model: Option<ModelRef>,
    pub variant: Option<String>,
    pub prompt: Option<String>,
    pub hidden: bool,
    /// how many steps it may take for one prompt
    pub steps: Option<u32>,
    pub permission: Ruleset,
}

/// Where in `list` the first agent of this name stands.
pub open spec fn agent_at(list: Seq<Agent>, name: Seq<char>) -> Option<int>
    decreases list.len(),
{
    if list.len() == 0 {
        None
    } else {
        match agent_at(list.drop_last(), name) {
            Some(i) => Some(i),
            None => if list.last().name@ == name {
                Some(list.len() - 1)
            } else {
                None
            },
        }
    }
}

pub fn find_agent(list: &Vec<Agent>, name: &str) -> (r: Option<usize>)
    ensures
        match r {
            Some(i) => i < list@.len() && agent_at(list@, name@) == Some(i as int),
            None => agent_at(list@, name@) is None,
        },
        r matches Some(i) ==> list@[i as int].name@ == name@,
{
    let mut i: usize = 0;
    let mut found: Option<usize> = None;
    while i < list.len()
        invariant
            i <= list@.len(),
            agent_at(list@.take(i as int), name@) == (match found {
                Some(k) => Some(k as int),
                None => None,
            }),
            found matches Some(k) ==> k < i && list@[k as int].name@ == name@,
        decreases list@.len() - i,
    {
        assert(list@.take(i + 1).drop_last() =~= list@.take(i as int));
        if found.is_none() && same(list[i].name.as_str(), name) {
            found = Some(i);
        }
        i += 1;
    }
    assert(list@.take(i as int) =~= list@);
    found
}

// ───────────────────────────── reading a history ─────────────────────────────

/// The last message for which `f` holds.
pub open spec fn last_where(msgs: Seq<MessageWithParts>, f: spec_fn(MessageWithParts) -> bool) -> Option<int>
    decreases msgs.len(),
{
    if msgs.len() == 0 {
        None
    } else if f(msgs.last()) {
        Some(msgs.len() - 1)
    } else {
        last_where(msgs.drop_last(), f)
    }
}

pub open spec fn last_user(msgs: Seq<MessageWithParts>) -> Option<int> {
    last_where(msgs, |m: MessageWithParts| m.info is User)
}

pub open spec fn last_reply(msgs: Seq<MessageWithParts>) -> Option<int> {
    last_where(msgs, |m: MessageWithParts| m.info is Assistant)
}

pub fn find_last_user(msgs: &Vec<MessageWithParts>) -> (r: Option<usize>)
    ensures
        match r {
            Some(i) => i < msgs@.len() && last_user(msgs@) == Some(i as int)
                && msgs@[i as int].info is User,
            None => last_user(msgs@) is None,
        },
{
    let ghost f = |m: MessageWithParts| m.info is User;
    let mut i: usize = msgs.len();
    assert(msgs@.take(i as int) =~= msgs@);
    while i > 0
        invariant
            i <= msgs@.len(),
            f == (|m: MessageWithParts| m.info is User),
            last_where(msgs@, f) == last_where(msgs@.take(i as int), f),
        decreases i,
    {
        assert(msgs@.take(i as int).last() == msgs@[i - 1]);
        assert(msgs@.take(i as int).drop_last() =~= msgs@.take(i - 1));
        if let Message::User(_) = msgs[i - 1].info {
            return Some(i - 1);
        }
        i -= 1;
    }
    None
}

/// Where the last assistant message of a history stands.
pub fn last_assistant(msgs: &Vec<MessageWithParts>) -> (r: Option<usize>)
    ensures
        match r {
            Some(i) => i < msgs@.len() && last_reply(msgs@) == Some(i as int)
                && msgs@[i as int].info is Assistant,
            None => last_reply(msgs@) is None,
        },
{
    let ghost f = |m: MessageWithParts| m.info is Assistant;
    let mut i: usize = msgs.len();
    assert(msgs@.take(i as int) =~= msgs@);
    while i > 0
        invariant
            i <= msgs@.len(),
            f == (|m: MessageWithParts| m.info is Assistant),
            last_where(msgs@, f) == last_where(msgs@.take(i as int), f),
        decreases i,
    {
        assert(msgs@.take(i as int).last() == msgs@[i - 1]);
        assert(msgs@.take(i as int).drop_last() =~= msgs@.take(i - 1));
        if let Message::Assistant(_) = msgs[i - 1].info {
            return Some(i - 1);
        }
        i -= 1;
    }
    None
}

/// What the user wrote: the texts among the parts that were not put there on
/// their behalf.
pub open spec fn own_texts(parts: Seq<Part>) -> Seq<Seq<char>>
    decreases parts.len(),
{
    if parts.len() == 0 {
        Seq::empty()
    } else {
        let before = own_texts(parts.drop_last());
        match parts.last().kind {
            PartKind::Text { text, synthetic, .. } => if synthetic {
                before
            } else {
                before.push(text@)
            },
            _ => before,
        }
    }
}

/// Adds what the user wrote in `parts` to `out`.
pub fn add_own_texts(parts: &Vec<Part>, out: &mut Vec<String>)
    ensures
        texts(final(out)@) == texts(old(out)@) + own_texts(parts@),
{
    let ghost start = texts(out@);
    let mut i: usize = 0;
    assert(start + own_texts(parts@.take(0)) =~= start);
    while i < parts.len()
        invariant
            i <= parts@.len(),
            texts(out@) == start + own_texts(parts@.take(i as int)),
        decreases parts@.len() - i,
    {
        assert(parts@.take(i + 1).drop_last() =~= parts@.take(i as int));
        assert(parts@.take(i + 1).last() == parts@[i as int]);
        if let PartKind::Text { text, synthetic, .. } = &parts[i].kind {
            if !*synthetic {
                let ghost was = texts(out@);
                out.push(text.clone());
                assert(texts(out@) =~= was.push(text@));
                assert(texts(out@) =~= start + own_texts(parts@.take(i + 1)));
            }
        }
        i += 1;
    }
    assert(parts@.take(i as int) =~= parts@);
}

/// What the user wrote in the last user message, text after text.
pub open spec fn last_user_text(msgs: Seq<MessageWithParts>) -> Seq<char> {
    match last_user(msgs) {
        Some(i) => join(own_texts(msgs[i].parts@), "\n"@),
        None => Seq::empty(),
    }
}

pub fn last_user_text_of(msgs: &Vec<MessageWithParts>) -> (r: String)
    ensures
        r@ == last_user_text(msgs@),
{
    match find_last_user(msgs) {
        Some(i) => {
            let mut out: Vec<String> = Vec::new();
            add_own_texts(&msgs[i].parts, &mut out);
            assert(texts(out@) =~= own_texts(msgs@[i as int].parts@));
            joined(&out, "\n")
        },
        None => String::new(),
    }
}

/// What the user wrote in all user messages.
pub open spec fn all_user_texts(msgs: Seq<MessageWithParts>) -> Seq<Seq<char>>
    decreases msgs.len(),
{
    if msgs.len() == 0 {
        Seq::empty()
    } else {
        let before = all_user_texts(msgs.drop_last());
        if msgs.last().info is User {
            before + own_texts(msgs.last().parts@)
        } else {
            before
        }
    }
}

pub fn all_user_texts_of(msgs: &Vec<MessageWithParts>) -> (r: Vec<String>)
    ensures
        texts(r@) == all_user_texts(msgs@),
{
    let mut out: Vec<String> = Vec::new();
    let mut i: usize = 0;
    assert(texts(out@) =~= Seq::empty());
    while i < msgs.len()
        invariant
            i <= msgs@.len(),
            texts(out@) == all_user_texts(msgs@.take(i as int)),
        decreases msgs@.len() - i,
    {
        assert(msgs@.take(i + 1).drop_last() =~= msgs@.take(i as int));
        assert(msgs@.take(i + 1).last() == msgs@[i as int]);
        if let Message::User(_) = msgs[i].info {
            add_own_texts(&msgs[i].parts, &mut out);
        }
        i += 1;
    }
    assert(msgs@.take(i as int) =~= msgs@);
    out
}

} // verus!
