//! How the steps of a session go.

use crate::config::Config;
use crate::provider::ModelView;
use crate::run_loop::{
    is_full, is_last_step, is_relevant, is_settled, kept_tools, pending, shown_agents, skipped_servers,
    system_blocks, was_called, McpServer, Next, Settled, StepOutcome, SystemParts, ToolDef,
};
use crate::runner::{
    any_image, calls_tools, came_to_end, first_with_id, is_done, need_of, overflows, total_weight, weight,
};
use crate::session::{
    agent_at, all_user_texts, last_reply, last_user, last_user_text, own_texts, Agent, AssistantMessage,
    MessageWithParts, Part, PartKind, Tokens, ToolState,
};
use crate::text::{byte_length, contains, decimal, join, lowercase, starts_with, texts};
use vstd::prelude::*;

verus! {

// ───────────────────────────── the system prompt ─────────────────────────────

pub open spec fn one_if(b: bool) -> int {
    if b {
        1
    } else {
        0
    }
}

/// Every part that there is is a block of the system prompt, and nothing else is. In
/// order: the environment, the project map, the instructions, what MCP servers say
/// and which were left out, the skills, what the user adds, and how to answer in a
/// given form.
pub proof fn every_part_is_in_the_system_prompt(p: SystemParts)
    ensures
        ({
            let b = system_blocks(p);
            let map = 1 + one_if(p.project_map is Some);
            let told = map + p.instructions@.len();
            let mcp = told + one_if(p.mcp_instructions is Some);
            let note = mcp + one_if(p.mcp_note is Some);
            let skills = note + one_if(p.skills is Some);
            let extra = skills + one_if(p.extra is Some);
            &&& b.len() == extra + one_if(p.structured is Some)
            &&& b[0] == p.environment@
            &&& p.project_map matches Some(t) ==> b[1] == t@
            &&& forall|i: int| 0 <= i < p.instructions@.len() ==> b[map + i] == (#[trigger] p.instructions@[i])@
            &&& p.mcp_instructions matches Some(t) ==> b[told] == t@
            &&& p.mcp_note matches Some(t) ==> b[mcp] == t@
            &&& p.skills matches Some(t) ==> b[note] == t@
            &&& p.extra matches Some(t) ==> b[skills] == t@
            &&& p.structured matches Some(t) ==> b[extra] == t@
        }),
{
    assert(texts(p.instructions@).len() == p.instructions@.len());
    assert forall|i: int| 0 <= i < p.instructions@.len() implies system_blocks(p)[1 + one_if(
        p.project_map is Some,
    ) + i] == (#[trigger] p.instructions@[i])@ by {
        assert(texts(p.instructions@)[i] == p.instructions@[i]@);
    }
}

// ───────────────────────────── tools ─────────────────────────────

/// A server is left in where the request names it, where it is set to stay, where one
/// of its tools was called before, or where the request is related to it; only then.
pub proof fn named_servers_stay(
    s: McpServer,
    words: Seq<Seq<char>>,
    user_text: Seq<char>,
    always: Seq<Seq<char>>,
    msgs: Seq<MessageWithParts>,
    i: int,
    j: int,
    k: int,
)
    ensures
        words.contains(lowercase(s.name@)) ==> is_relevant(s, words, user_text, always, msgs),
        contains(lowercase(user_text), lowercase(s.name@)) ==> is_relevant(s, words, user_text, always, msgs),
        always.contains(s.name@) ==> is_relevant(s, words, user_text, always, msgs),
        s.related ==> is_relevant(s, words, user_text, always, msgs),
        0 <= i < msgs.len() && 0 <= j < msgs[i].parts@.len() && 0 <= k < s.tools@.len() && (
        msgs[i].parts@[j].kind matches PartKind::Tool { tool, .. } && tool@ == s.tools@[k]@) ==> is_relevant(
            s,
            words,
            user_text,
            always,
            msgs,
        ),
        is_relevant(s, words, user_text, always, msgs) ==> words.contains(lowercase(s.name@)) || contains(
            lowercase(user_text),
            lowercase(s.name@),
        ) || always.contains(s.name@) || s.related || exists|x: int, y: int, z: int|
            0 <= x < msgs.len() && 0 <= y < msgs[x].parts@.len() && 0 <= z < s.tools@.len() && (
            #[trigger] msgs[x].parts@[y].kind matches PartKind::Tool { tool, .. } && tool@ == #[trigger] s.tools@[z]@),
{
    if 0 <= i < msgs.len() && 0 <= j < msgs[i].parts@.len() && 0 <= k < s.tools@.len() && (
    msgs[i].parts@[j].kind matches PartKind::Tool { tool, .. } && tool@ == s.tools@[k]@) {
        assert(crate::run_loop::is_call_of(msgs[i].parts@[j], s.tools@[k]@));
        assert(was_called(msgs, s.tools@[k]@));
    }
    if exists|z: int| 0 <= z < s.tools@.len() && was_called(msgs, (#[trigger] s.tools@[z])@) {
        let z = choose|z: int| 0 <= z < s.tools@.len() && was_called(msgs, (#[trigger] s.tools@[z])@);
        let (x, y) = choose|x: int, y: int|
            0 <= x < msgs.len() && 0 <= y < msgs[x].parts@.len() && crate::run_loop::is_call_of(
                #[trigger] msgs[x].parts@[y],
                s.tools@[z]@,
            );
        assert(msgs[x].parts@[y].kind matches PartKind::Tool { tool, .. } && tool@ == s.tools@[z]@);
    }
}

/// The model is told of every server that was left out, with how many tools it has,
/// and of no other.
pub proof fn left_out_servers_are_told(
    index: Seq<McpServer>,
    words: Seq<Seq<char>>,
    user_text: Seq<char>,
    always: Seq<Seq<char>>,
    msgs: Seq<MessageWithParts>,
    line: Seq<char>,
)
    ensures
        skipped_servers(index, words, user_text, always, msgs).contains(line) <==> exists|i: int|
            0 <= i < index.len() && !is_relevant(#[trigger] index[i], words, user_text, always, msgs) && line
                == index[i].name@ + " ("@ + decimal(index[i].tools@.len()) + " tools)"@,
    decreases index.len(),
{
    let all = skipped_servers(index, words, user_text, always, msgs);
    if index.len() > 0 {
        let d = index.drop_last();
        let before = skipped_servers(d, words, user_text, always, msgs);
        left_out_servers_are_told(d, words, user_text, always, msgs, line);
        if before.contains(line) {
            let x = choose|x: int| 0 <= x < before.len() && before[x] == line;
            assert(all[x] == line);
            let i = choose|i: int|
                0 <= i < d.len() && !is_relevant(#[trigger] d[i], words, user_text, always, msgs) && line
                    == d[i].name@ + " ("@ + decimal(d[i].tools@.len()) + " tools)"@;
            assert(index[i] == d[i]);
        }
        if all.contains(line) && !before.contains(line) {
            let x = choose|x: int| 0 <= x < all.len() && all[x] == line;
            if x < before.len() {
                assert(before[x] == line);
            }
            assert(!is_relevant(index[index.len() - 1], words, user_text, always, msgs));
        }
        if exists|i: int|
            0 <= i < index.len() && !is_relevant(#[trigger] index[i], words, user_text, always, msgs) && line
                == index[i].name@ + " ("@ + decimal(index[i].tools@.len()) + " tools)"@ {
            let i = choose|i: int|
                0 <= i < index.len() && !is_relevant(#[trigger] index[i], words, user_text, always, msgs) && line
                    == index[i].name@ + " ("@ + decimal(index[i].tools@.len()) + " tools)"@;
            if i < d.len() {
                assert(d[i] == index[i]);
            } else {
                assert(all[all.len() - 1] == line);
            }
        }
    }
}

/// Of the tools exactly those are kept that were not dropped.
pub proof fn dropped_tools_are_gone(tools: Seq<ToolDef>, dropped: Seq<Seq<char>>, t: ToolDef)
    ensures
        kept_tools(tools, dropped).contains(t) <==> tools.contains(t) && !dropped.contains(t.name@),
{
    let pred = |t: ToolDef| !dropped.contains(t.name@);
    let f = tools.filter(pred);
    if f.contains(t) {
        tools.lemma_filter_contains_rev(pred, t);
        let i = choose|i: int| 0 <= i < f.len() && f[i] == t;
        tools.lemma_filter_pred(pred, i);
    }
    if tools.contains(t) && pred(t) {
        let i = choose|i: int| 0 <= i < tools.len() && tools[i] == t;
        tools.lemma_filter_contains(pred, i);
    }
}

// ───────────────────────────── when to compact ─────────────────────────────

/// A context is full where what it holds and the reserve for the reply take the whole
/// window: of the input where the model limits that, else of all, and then what the
/// model may write is kept free too. The reserve is what was set, else what the model
/// may write, up to 20000. Nothing is full that does not compact by itself, or whose
/// window is all reserve.
pub proof fn full_contexts_leave_no_room(config: Config, tokens: Tokens, m: ModelView, reserve: int)
    requires
        config.compaction_reserved matches Some(r) ==> reserve == r,
        config.compaction_reserved is None && m.max_output > 20_000 ==> reserve == 20_000,
        config.compaction_reserved is None && m.max_output <= 20_000 ==> reserve == m.max_output,
    ensures
        !config.compaction_auto ==> !overflows(config, tokens, m),
        config.compaction_auto && (m.input matches Some(n) && n > 0) ==> (overflows(config, tokens, m) <==> m.input->0
            > reserve && tokens.effective_total + reserve >= m.input->0),
        config.compaction_auto && !(m.input matches Some(n) && n > 0) ==> (overflows(config, tokens, m) <==> m.context
            > reserve && m.context > m.max_output && (tokens.effective_total + reserve >= m.context
            || tokens.effective_total + m.max_output >= m.context)),
{
}

/// A step that was a summary does not fill the context, nor does one that never ended.
pub proof fn summaries_do_not_fill(config: Config, f: AssistantMessage, m: ModelView)
    ensures
        !is_full(config, None, m),
        f.summary == Some(true) ==> !is_full(config, Some(f), m),
        f.summary != Some(true) ==> (is_full(config, Some(f), m) <==> overflows(config, f.tokens, m)),
{
}

/// The last task of a session waits where it is a subtask or a compaction; no earlier
/// one does.
pub proof fn only_the_last_task_waits(tasks: Seq<Part>)
    ensures
        pending(tasks) is Some <==> tasks.len() > 0 && (tasks[tasks.len() - 1].kind is Subtask || tasks[tasks.len()
            - 1].kind is Compaction),
        pending(tasks) is Some ==> pending(tasks) == Some(tasks[tasks.len() - 1].kind),
{
}

/// An agent with a bound on its steps is told at the last one.
pub proof fn bounded_agents_come_to_their_last_step(agent: Agent, step: u32)
    ensures
        agent.steps is None ==> !is_last_step(agent, step),
        agent.steps matches Some(n) ==> (is_last_step(agent, step) <==> step >= n),
        is_last_step(agent, step) && step < u32::MAX ==> is_last_step(agent, (step + 1) as u32),
{
}

// ───────────────────────────── when a session is done ─────────────────────────────

/// A reply came to its end where it says how, other than that tools are called or that
/// nothing is known.
pub proof fn replies_end_for_a_reason(finish: Option<String>)
    ensures
        finish is None ==> !came_to_end(finish),
        finish matches Some(f) ==> (came_to_end(finish) <==> f@ != "tool-calls"@ && f@ != "unknown"@),
{
}

proof fn lemma_first_with_id(msgs: Seq<MessageWithParts>, id: Seq<char>)
    ensures
        match first_with_id(msgs, id) {
            Some(i) => 0 <= i < msgs.len() && msgs[i].info.spec_id() == id && forall|j: int|
                0 <= j < i ==> (#[trigger] msgs[j]).info.spec_id() != id,
            None => forall|j: int| 0 <= j < msgs.len() ==> (#[trigger] msgs[j]).info.spec_id() != id,
        },
    decreases msgs.len(),
{
    if msgs.len() > 0 {
        let d = msgs.drop_last();
        lemma_first_with_id(d, id);
        match first_with_id(d, id) {
            Some(i) => {
                assert(msgs[i] == d[i]);
                assert forall|j: int| 0 <= j < i implies (#[trigger] msgs[j]).info.spec_id() != id by {
                    assert(msgs[j] == d[j]);
                }
            },
            None => {
                assert forall|j: int| 0 <= j < d.len() implies (#[trigger] msgs[j]).info.spec_id() != id by {
                    assert(msgs[j] == d[j]);
                }
            },
        }
    }
}

/// A session is done where its latest reply answers the latest prompt, came to its end,
/// and calls no tool but one that was interrupted.
pub proof fn done_sessions_are_answered(msgs: Seq<MessageWithParts>, a: AssistantMessage, prompt: Seq<char>, i: int)
    requires
        0 <= i < msgs.len(),
        msgs[i].info.spec_id() == a.id@,
        forall|j: int| 0 <= j < i ==> (#[trigger] msgs[j]).info.spec_id() != a.id@,
    ensures
        !is_done(msgs, None, prompt),
        is_done(msgs, Some(a), prompt) <==> a.parent_id@ == prompt && came_to_end(a.finish) && forall|k: int|
            0 <= k < msgs[i].parts@.len() ==> ((#[trigger] msgs[i].parts@[k]).kind matches PartKind::Tool { state, .. }
                ==> (state matches ToolState::Error { interrupted, .. } && interrupted)),
{
    lemma_first_with_id(msgs, a.id@);
    let x = first_with_id(msgs, a.id@)->0;
    assert(x == i) by {
        if x < i {
            assert(msgs[x].info.spec_id() != a.id@);
        } else if i < x {
            assert(msgs[i].info.spec_id() != a.id@);
        }
    }
    let parts = msgs[i].parts@;
    if calls_tools(msgs, a.id@) {
        let k = choose|k: int| 0 <= k < parts.len() && crate::runner::is_live_call(#[trigger] parts[k]);
        assert(parts[k].kind is Tool);
    } else {
        assert forall|k: int| 0 <= k < parts.len() implies ((#[trigger] parts[k]).kind matches PartKind::Tool {
            state,
            ..
        } ==> (state matches ToolState::Error { interrupted, .. } && interrupted)) by {
            assert(!crate::runner::is_live_call(parts[k]));
        }
    }
}

/// A reply is settled one of four ways. What was structured is put into it and ends the
/// loop; what the provider blocked ends it with an error that is told; what owes a
/// structure ends it with one that is not; else the model's outcome decides.
pub proof fn replies_are_settled(
    r: Settled,
    m: AssistantMessage,
    structured: Option<String>,
    outcome: StepOutcome,
    wants: bool,
)
    requires
        is_settled(r, m, structured, outcome, wants),
    ensures
        r.message.id == m.id && r.message.parent_id == m.parent_id && r.message.tokens == m.tokens,
        structured matches Some(s) ==> r.message.structured == Some(s) && r.next == Next::Stop && r.store && !r.publish
            && r.message.finish is Some && r.message.error == m.error,
        structured is None && m.error is None && (m.finish matches Some(f) && f@ == "content-filter"@)
            ==> r.message.error is Some && r.message.error->0 is ContentFilter && r.next == Next::Stop && r.store && r.publish,
        structured is None && m.error is None && wants && (m.finish matches Some(f) && f@ != "content-filter"@ && f@
            != "tool-calls"@ && f@ != "unknown"@) ==> r.message.error is Some && r.message.error->0 is StructuredOutput
            && r.next == Next::Stop && r.store && !r.publish,
        structured is None && (m.error is Some || m.finish is None || (m.finish matches Some(f) && f@
            != "content-filter"@ && (!wants || f@ == "tool-calls"@ || f@ == "unknown"@))) ==> {
            &&& r.message.error == m.error && !r.store && !r.publish
            &&& outcome is Stop ==> r.next == Next::Stop
            &&& outcome is Continue ==> r.next == Next::Continue
            &&& outcome is Compact ==> r.next == (Next::CreateCompaction { overflow: m.finish is None })
        },
{
    reveal_strlit("content-filter");
    reveal_strlit("tool-calls");
    reveal_strlit("unknown");
    assert("content-filter"@.len() == 14 && "tool-calls"@.len() == 10 && "unknown"@.len() == 7);
}

// ───────────────────────────── what a request needs ─────────────────────────────

/// A request needs tools always, images where any message holds one, and a quarter of
/// the bytes of its texts in tokens; a tool call counts 200 bytes beside its output,
/// any other part 50.
pub proof fn needs_go_by_the_history(msgs: Seq<MessageWithParts>, m: MessageWithParts, p: Part)
    ensures
        need_of(msgs).tools,
        need_of(msgs).vision <==> exists|i: int, j: int|
            0 <= i < msgs.len() && 0 <= j < msgs[i].parts@.len() && (#[trigger] msgs[i].parts@[j].kind matches PartKind::File {
                mime,
                ..
            } && starts_with(mime@, "image/"@)),
        total_weight(msgs) <= u64::MAX ==> need_of(msgs).tokens == total_weight(msgs) / 4,
        total_weight(Seq::empty()) == 0,
        total_weight(msgs.push(m)) >= total_weight(msgs),
        m.parts@.len() == 1 ==> total_weight(msgs.push(m)) == total_weight(msgs) + weight(m.parts@[0]),
        p.kind matches PartKind::Text { text, .. } ==> weight(p) == byte_length(text@),
        p.kind matches PartKind::Reasoning { text } ==> weight(p) == byte_length(text@),
        p.kind matches PartKind::Tool { state: ToolState::Completed { output, .. }, .. } ==> weight(p) == byte_length(
            output@,
        ) + 200,
        p.kind matches PartKind::Tool { state, .. } ==> !(state is Completed) ==> weight(p) == 200,
        !(p.kind is Text) && !(p.kind is Reasoning) && !(p.kind is Tool) ==> weight(p) == 50,
{
    assert(msgs.push(m).drop_last() =~= msgs);
    if m.parts@.len() == 1 {
        assert(m.parts@.drop_last().len() == 0);
        assert(crate::runner::parts_weight(m.parts@.drop_last()) == 0);
        assert(crate::runner::parts_weight(m.parts@) == weight(m.parts@[0]));
    }
    if any_image(msgs) {
        let i = choose|i: int| 0 <= i < msgs.len() && crate::runner::shows_image(#[trigger] msgs[i]);
        let j = choose|j: int| 0 <= j < msgs[i].parts@.len() && crate::runner::is_image(#[trigger] msgs[i].parts@[j]);
        assert(msgs[i].parts@[j].kind is File);
    }
    if exists|i: int, j: int|
        0 <= i < msgs.len() && 0 <= j < msgs[i].parts@.len() && (#[trigger] msgs[i].parts@[j].kind matches PartKind::File {
            mime,
            ..
        } && starts_with(mime@, "image/"@)) {
        let (i, j) = choose|i: int, j: int|
            0 <= i < msgs.len() && 0 <= j < msgs[i].parts@.len() && (
            #[trigger] msgs[i].parts@[j].kind matches PartKind::File { mime, .. } && starts_with(mime@, "image/"@));
        assert(crate::runner::is_image(msgs[i].parts@[j]));
        assert(crate::runner::shows_image(msgs[i]));
    }
}

// ───────────────────────────── histories ─────────────────────────────

/// The last message of a kind is one of it, and none behind it is.
pub proof fn last_messages_are_last(msgs: Seq<MessageWithParts>)
    ensures
        match last_user(msgs) {
            Some(i) => 0 <= i < msgs.len() && msgs[i].info is User && forall|j: int|
                i < j < msgs.len() ==> !((#[trigger] msgs[j]).info is User),
            None => forall|j: int| 0 <= j < msgs.len() ==> !((#[trigger] msgs[j]).info is User),
        },
        match last_reply(msgs) {
            Some(i) => 0 <= i < msgs.len() && msgs[i].info is Assistant && forall|j: int|
                i < j < msgs.len() ==> !((#[trigger] msgs[j]).info is Assistant),
            None => forall|j: int| 0 <= j < msgs.len() ==> !((#[trigger] msgs[j]).info is Assistant),
        },
{
    lemma_last_where(msgs, |m: MessageWithParts| m.info is User);
    lemma_last_where(msgs, |m: MessageWithParts| m.info is Assistant);
    let u = |m: MessageWithParts| m.info is User;
    let a = |m: MessageWithParts| m.info is Assistant;
    let n = match last_user(msgs) {
        Some(i) => i,
        None => -1,
    };
    let k = match last_reply(msgs) {
        Some(i) => i,
        None => -1,
    };
    assert forall|j: int| n < j < msgs.len() implies !((#[trigger] msgs[j]).info is User) by {
        assert(!u(msgs[j]));
    }
    assert forall|j: int| k < j < msgs.len() implies !((#[trigger] msgs[j]).info is Assistant) by {
        assert(!a(msgs[j]));
    }
}

proof fn lemma_last_where(msgs: Seq<MessageWithParts>, f: spec_fn(MessageWithParts) -> bool)
    ensures
        match crate::session::last_where(msgs, f) {
            Some(i) => 0 <= i < msgs.len() && f(msgs[i]) && forall|j: int|
                i < j < msgs.len() ==> !f(#[trigger] msgs[j]),
            None => forall|j: int| 0 <= j < msgs.len() ==> !f(#[trigger] msgs[j]),
        },
    decreases msgs.len(),
{
    if msgs.len() > 0 && !f(msgs.last()) {
        let d = msgs.drop_last();
        lemma_last_where(d, f);
        let n = match crate::session::last_where(d, f) {
            Some(i) => i,
            None => -1,
        };
        assert forall|j: int| n < j < msgs.len() implies !f(#[trigger] msgs[j]) by {
            if j < d.len() {
                assert(msgs[j] == d[j]);
            }
        }
    }
}

/// What a user wrote are the texts of a message that nobody made up.
pub proof fn own_texts_are_the_users(parts: Seq<Part>, p: Part)
    ensures
        own_texts(Seq::empty()).len() == 0,
        p.kind matches PartKind::Text { text, synthetic, .. } ==> own_texts(parts.push(p)) == (if synthetic {
            own_texts(parts)
        } else {
            own_texts(parts).push(text@)
        }),
        !(p.kind is Text) ==> own_texts(parts.push(p)) == own_texts(parts),
{
    assert(parts.push(p).drop_last() =~= parts);
}

/// The text of a request is that of the last user message; all texts are those of every
/// user message, in order.
pub proof fn requests_are_the_last_user_text(msgs: Seq<MessageWithParts>, m: MessageWithParts)
    ensures
        m.info is User ==> last_user_text(msgs.push(m)) == join(own_texts(m.parts@), "\n"@),
        m.info is Assistant ==> last_user_text(msgs.push(m)) == last_user_text(msgs),
        last_user_text(Seq::empty()).len() == 0,
        m.info is User ==> all_user_texts(msgs.push(m)) == all_user_texts(msgs) + own_texts(m.parts@),
        m.info is Assistant ==> all_user_texts(msgs.push(m)) == all_user_texts(msgs),
        all_user_texts(Seq::empty()).len() == 0,
{
    assert(msgs.push(m).drop_last() =~= msgs);
    last_messages_are_last(msgs);
    if m.info is Assistant {
        if let Some(i) = last_user(msgs) {
            assert(msgs.push(m)[i] == msgs[i]);
        }
    }
}

/// An agent is found by its name, the first of several; a missing one is answered with
/// those that are not hidden.
pub proof fn agents_go_by_name(list: Seq<Agent>, name: Seq<char>)
    ensures
        match agent_at(list, name) {
            Some(i) => 0 <= i < list.len() && list[i].name@ == name && forall|j: int|
                0 <= j < i ==> (#[trigger] list[j]).name@ != name,
            None => forall|j: int| 0 <= j < list.len() ==> (#[trigger] list[j]).name@ != name,
        },
        shown_agents(list).contains(name) <==> exists|i: int|
            0 <= i < list.len() && !(#[trigger] list[i]).hidden && list[i].name@ == name,
    decreases list.len(),
{
    if list.len() > 0 {
        let d = list.drop_last();
        agents_go_by_name(d, name);
        let n = match agent_at(d, name) {
            Some(i) => i,
            None => d.len() as int,
        };
        assert forall|j: int| 0 <= j < n implies (#[trigger] list[j]).name@ != name by {
            assert(list[j] == d[j]);
        }
        let all = shown_agents(list);
        let before = shown_agents(d);
        if before.contains(name) {
            let x = choose|x: int| 0 <= x < before.len() && before[x] == name;
            assert(all[x] == name);
            let i = choose|i: int| 0 <= i < d.len() && !(#[trigger] d[i]).hidden && d[i].name@ == name;
            assert(list[i] == d[i]);
        }
        if all.contains(name) && !before.contains(name) {
            let x = choose|x: int| 0 <= x < all.len() && all[x] == name;
            if x < before.len() {
                assert(before[x] == name);
            }
            assert(list[list.len() - 1].name@ == name);
        }
        if exists|i: int| 0 <= i < list.len() && !(#[trigger] list[i]).hidden && list[i].name@ == name {
            let i = choose|i: int| 0 <= i < list.len() && !(#[trigger] list[i]).hidden && list[i].name@ == name;
            if i < d.len() {
                assert(d[i] == list[i]);
            } else {
                assert(all[all.len() - 1] == name);
            }
        }
    }
}

/// The tool for a structured answer is named for it and takes the schema that was asked for.
pub proof fn structured_answers_have_a_tool(t: ToolDef, schema: Seq<char>)
    ensures
        crate::run_loop::is_structured_tool(t, schema) <==> t.name@ == "StructuredOutput"@ && t.description@
            == "Call this tool exactly once with the final structured result."@ && t.input_schema@ == schema,
{
}

} // verus!
