//! Prompt intake and the outer multi-step loop.

use crate::config::Config;
use crate::provider::{Model, ModelView};
use crate::router::{Need, NeedView};
use crate::session::{
    last_user_text, last_user_text_of, AssistantMessage, MessageWithParts, Part, PartKind, Tokens, ToolState,
};
use crate::text::{byte_len, byte_length, has_prefix, same, starts_with};
use vstd::prelude::*;

verus! {

#[derive(Debug)]
pub enum PromptError {
    Busy,
    AgentNotFound(String),
    NoModel(String),
    Storage(String),
}

impl PromptError {
    pub open spec fn text(self) -> Seq<char> {
        match self {
            PromptError::Busy => "session is busy"@,
            PromptError::AgentNotFound(name) => "agent not found: "@ + name@,
            PromptError::NoModel(why) => "no model available: "@ + why@,
            PromptError::Storage(why) => why@,
        }
    }

    /// The error as it is shown.
    pub fn message(&self) -> (s: String)
        ensures
            s@ == self.text(),
    {
        match self {
            PromptError::Busy => "session is busy".to_owned(),
            PromptError::AgentNotFound(name) => {
                let mut s = "agent not found: ".to_owned();
                s.append(name.as_str());
                s
            },
            PromptError::NoModel(why) => {
                let mut s = "no model available: ".to_owned();
                s.append(why.as_str());
                s
            },
            PromptError::Storage(why) => why.clone(),
        }
    }
}

// ───────────────────────────── overflow ─────────────────────────────

/// Tokens kept free for the reply.
pub open spec fn reserve(config: Config, m: ModelView) -> int {
    match config.compaction_reserved {
        Some(r) => r as int,
        None => if 20_000 < m.max_output {
            20_000
        } else {
            m.max_output as int
        },
    }
}

/// What is left of the window for input: of the input window where the model has
/// one, of the context window otherwise.
pub open spec fn usable_window(config: Config, m: ModelView) -> int {
    let reserved = reserve(config, m);
    match m.input {
        Some(input) if input > 0 => input - reserved,
        _ => m.context - (if m.max_output > reserved {
            m.max_output as int
        } else {
            reserved
        }),
    }
}

/// Context is full when the last step's total tokens reach the usable input
/// window.
pub open spec fn overflows(config: Config, tokens: Tokens, m: ModelView) -> bool {
    &&& config.compaction_auto
    &&& usable_window(config, m) > 0
    &&& tokens.effective_total >= usable_window(config, m)
}

/// Context is full when the last step's total tokens reach the usable input
/// window minus a reserve for the reply.
pub fn is_overflow(config: &Config, tokens: &Tokens, model: &Model) -> (b: bool)
    ensures
        b == overflows(*config, *tokens, model@),
{
    if !config.compaction_auto {
        return false;
    }
    let reserved: u64 = match config.compaction_reserved {
        Some(r) => r,
        None => if 20_000 < model.max_output {
            20_000
        } else {
            model.max_output
        },
    };
    let kept: u64 = if model.max_output > reserved {
        model.max_output
    } else {
        reserved
    };
    let (window, taken): (u64, u64) = match model.input {
        Some(input) if input > 0 => (input, reserved),
        _ => (model.context, kept),
    };
    if window <= taken {
        return false;
    }
    tokens.effective_total >= window - taken
}

/// A longer step overflows where a shorter one does.
pub proof fn overflow_is_monotone(config: Config, less: Tokens, more: Tokens, m: ModelView)
    requires
        less.effective_total <= more.effective_total,
        overflows(config, less, m),
    ensures
        overflows(config, more, m),
{
}

// ───────────────────────────── what a step needs ─────────────────────────────

/// Whether a part is an image.
pub open spec fn is_image(p: Part) -> bool {
    p.kind matches PartKind::File { mime, .. } && starts_with(mime@, "image/"@)
}

pub open spec fn shows_image(m: MessageWithParts) -> bool {
    exists|j: int| 0 <= j < m.parts@.len() && is_image(#[trigger] m.parts@[j])
}

pub open spec fn any_image(msgs: Seq<MessageWithParts>) -> bool {
    exists|i: int| 0 <= i < msgs.len() && shows_image(#[trigger] msgs[i])
}

/// About how many characters a part adds to the prompt.
pub open spec fn weight(p: Part) -> nat {
    match p.kind {
        PartKind::Text { text, .. } => byte_length(text@),
        PartKind::Reasoning { text } => byte_length(text@),
        PartKind::Tool { state, .. } => match state {
            ToolState::Completed { output, .. } => byte_length(output@) + 200,
            _ => 200,
        },
        _ => 50,
    }
}

pub open spec fn parts_weight(parts: Seq<Part>) -> nat
    decreases parts.len(),
{
    if parts.len() == 0 {
        0
    } else {
        parts_weight(parts.drop_last()) + weight(parts.last())
    }
}

pub open spec fn total_weight(msgs: Seq<MessageWithParts>) -> nat
    decreases msgs.len(),
{
    if msgs.len() == 0 {
        0
    } else {
        total_weight(msgs.drop_last()) + parts_weight(msgs.last().parts@)
    }
}

pub open spec fn at_most(n: int, cap: int) -> int {
    if n < cap {
        n
    } else {
        cap
    }
}

/// What a step over this history needs from a model. Four characters count as a
/// token.
pub open spec fn need_of(msgs: Seq<MessageWithParts>) -> NeedView {
    NeedView {
        tools: true,
        vision: any_image(msgs),
        tokens: (at_most(total_weight(msgs) as int, u64::MAX as int) / 4) as u64,
        user_text: last_user_text(msgs),
    }
}

fn part_weight(p: &Part) -> (n: u128)
    ensures
        n == weight(*p),
{
    match &p.kind {
        PartKind::Text { text, .. } => byte_len(text.as_str()) as u128,
        PartKind::Reasoning { text } => byte_len(text.as_str()) as u128,
        PartKind::Tool { state, .. } => match state {
            ToolState::Completed { output, .. } => byte_len(output.as_str()) as u128 + 200,
            _ => 200,
        },
        _ => 50,
    }
}

fn part_is_image(p: &Part) -> (b: bool)
    ensures
        b == is_image(*p),
{
    match &p.kind {
        PartKind::File { mime, .. } => has_prefix(mime.as_str(), "image/"),
        _ => false,
    }
}

fn add_up(sum: u64, w: u128) -> (r: u64)
    ensures
        r == at_most(sum + w, u64::MAX as int),
{
    if w > u64::MAX as u128 || sum as u128 + w > u64::MAX as u128 {
        u64::MAX
    } else {
        sum + w as u64
    }
}

pub fn need_for(msgs: &Vec<MessageWithParts>) -> (r: Need)
    ensures
        r@ == need_of(msgs@),
{
    let mut vision = false;
    let mut sum: u64 = 0;
    let mut i: usize = 0;
    while i < msgs.len()
        invariant
            i <= msgs@.len(),
            vision == (exists|k: int| 0 <= k < i && shows_image(#[trigger] msgs@[k])),
            sum == at_most(total_weight(msgs@.take(i as int)) as int, u64::MAX as int),
        decreases msgs@.len() - i,
    {
        let parts = &msgs[i].parts;
        let mut j: usize = 0;
        let mut image = false;
        let ghost before = total_weight(msgs@.take(i as int));
        while j < parts.len()
            invariant
                j <= parts@.len(),
                image == (exists|k: int| 0 <= k < j && is_image(#[trigger] parts@[k])),
                sum == at_most(
                    before + parts_weight(parts@.take(j as int)) as int,
                    u64::MAX as int,
                ),
            decreases parts@.len() - j,
        {
            assert(parts@.take(j + 1).drop_last() =~= parts@.take(j as int));
            assert(parts@.take(j + 1).last() == parts@[j as int]);
            let here = part_is_image(&parts[j]);
            image = image || here;
            sum = add_up(sum, part_weight(&parts[j]));
            j += 1;
        }
        assert(parts@.take(j as int) =~= parts@);
        assert(msgs@.take(i + 1).drop_last() =~= msgs@.take(i as int));
        assert(msgs@.take(i + 1).last() == msgs@[i as int]);
        assert(image == shows_image(msgs@[i as int]));
        vision = vision || image;
        i += 1;
    }
    assert(msgs@.take(i as int) =~= msgs@);
    Need { tools: true, vision, tokens: sum / 4, user_text: last_user_text_of(msgs) }
}

// ───────────────────────────── is the reply complete ─────────────────────────────

/// Whether a reply came to an end of its own: not to run tools, and not for a
/// reason that nobody knows.
pub open spec fn came_to_end(finish: Option<String>) -> bool {
    finish matches Some(f) && f@ != "tool-calls"@ && f@ != "unknown"@
}

pub fn is_finished(finish: &Option<String>) -> (b: bool)
    ensures
        b == came_to_end(*finish),
{
    match finish {
        Some(f) => !same(f.as_str(), "tool-calls") && !same(f.as_str(), "unknown"),
        None => false,
    }
}

/// A tool call that still counts: any but one that was cut off.
pub open spec fn is_live_call(p: Part) -> bool {
    p.kind matches PartKind::Tool { state, .. } && !(state matches ToolState::Error {
        interrupted,
        ..
    } && interrupted)
}

pub open spec fn has_live_call(parts: Seq<Part>) -> bool {
    exists|j: int| 0 <= j < parts.len() && is_live_call(#[trigger] parts[j])
}

/// The first message of this id.
pub open spec fn first_with_id(msgs: Seq<MessageWithParts>, id: Seq<char>) -> Option<int>
    decreases msgs.len(),
{
    if msgs.len() == 0 {
        None
    } else {
        match first_with_id(msgs.drop_last(), id) {
            Some(i) => Some(i),
            None => if msgs.last().info.spec_id() == id {
                Some(msgs.len() - 1)
            } else {
                None
            },
        }
    }
}

pub open spec fn calls_tools(msgs: Seq<MessageWithParts>, id: Seq<char>) -> bool {
    match first_with_id(msgs, id) {
        Some(i) => has_live_call(msgs[i].parts@),
        None => false,
    }
}

/// The loop is done when the last reply answers the last prompt, came to an end
/// of its own and called no tool.
pub open spec fn is_done(msgs: Seq<MessageWithParts>, reply: Option<AssistantMessage>, prompt_id: Seq<char>) -> bool {
    reply matches Some(a) && came_to_end(a.finish) && !calls_tools(msgs, a.id@) && a.parent_id@
        == prompt_id
}

fn live_call_among(parts: &Vec<Part>) -> (b: bool)
    ensures
        b == has_live_call(parts@),
{
    let mut j: usize = 0;
    while j < parts.len()
        invariant
            j <= parts@.len(),
            forall|k: int| 0 <= k < j ==> !is_live_call(#[trigger] parts@[k]),
        decreases parts@.len() - j,
    {
        let live = match &parts[j].kind {
            PartKind::Tool { state, .. } => match state {
                ToolState::Error { interrupted, .. } => !*interrupted,
                _ => true,
            },
            _ => false,
        };
        if live {
            assert(is_live_call(parts@[j as int]));
            return true;
        }
        j += 1;
    }
    false
}

/// Whether the message of this id calls tools.
pub fn has_tool_calls(msgs: &Vec<MessageWithParts>, id: &str) -> (b: bool)
    ensures
        b == calls_tools(msgs@, id@),
{
    let mut i: usize = 0;
    while i < msgs.len()
        invariant
            i <= msgs@.len(),
            first_with_id(msgs@.take(i as int), id@) is None,
        decreases msgs@.len() - i,
    {
        assert(msgs@.take(i + 1).drop_last() =~= msgs@.take(i as int));
        assert(msgs@.take(i + 1).last() == msgs@[i as int]);
        if same(msgs[i].info.id().as_str(), id) {
            proof {
                lemma_first_with_id_extends(msgs@, id@, i + 1);
            }
            return live_call_among(&msgs[i].parts);
        }
        i += 1;
    }
    assert(msgs@.take(i as int) =~= msgs@);
    false
}

proof fn lemma_first_with_id_extends(msgs: Seq<MessageWithParts>, id: Seq<char>, n: int)
    requires
        0 <= n <= msgs.len(),
        first_with_id(msgs.take(n), id) is Some,
    ensures
        first_with_id(msgs, id) == first_with_id(msgs.take(n), id),
    decreases msgs.len(),
{
    if n == msgs.len() {
        assert(msgs.take(n) =~= msgs);
    } else {
        assert(msgs.drop_last().take(n) =~= msgs.take(n));
        lemma_first_with_id_extends(msgs.drop_last(), id, n);
    }
}

pub fn reply_is_done(msgs: &Vec<MessageWithParts>, reply: &Option<AssistantMessage>, prompt_id: &str) -> (b: bool)
    ensures
        b == is_done(msgs@, *reply, prompt_id@),
{
    match reply {
        Some(a) => {
            let calls = has_tool_calls(msgs, a.id.as_str());
            is_finished(&a.finish) && !calls && same(a.parent_id.as_str(), prompt_id)
        },
        None => false,
    }
}

} // verus!
