//! Permissions, subagents, and what the engine hands on.

use crate::engine::{
    allowed, arg_map, dirs_below, first_in_parts, first_snapshot, loaded, loaded_by, loaded_in_parts, server_lines,
    serves, servers_lines, snapshot_of, taken, Nesting, ServerText,
};
use crate::path::{components, parent, same_path, under};
use crate::permission::{applies, covers, verdict, Action, RuleView, Ruleset};
use crate::session::{Agent, AgentMode, Message, MessageWithParts, ModelRef, Part, PartKind, ToolState};
use crate::sort::order;
use crate::task::{
    agent_line, agent_lines, agent_names, allows, answer_of, callable, child_failure, child_rules, is_child_model,
    is_inherited, is_named_model, last_text, last_tool_error, new_session_rules, title_of_child, TaskArgs,
};
use crate::text::{decimal, lines, opt_text, texts};
use vstd::prelude::*;

verus! {

// ───────────────────────────── rules ─────────────────────────────

/// A rule applies where its permission covers the permission and its pattern covers the
/// subject; where none applies, nothing is decided.
pub proof fn rules_decide_what_they_cover(rs: Seq<RuleView>, r: RuleView, permission: Seq<char>, subject: Seq<char>)
    ensures
        applies(r, permission, subject) <==> covers(permission, r.permission) && covers(subject, r.pattern),
        verdict(rs, permission, subject) is None <==> forall|i: int|
            0 <= i < rs.len() ==> !(covers(permission, (#[trigger] rs[i]).permission) && covers(subject, rs[i].pattern)),
    decreases rs.len(),
{
    if rs.len() > 0 {
        let d = rs.drop_last();
        rules_decide_what_they_cover(d, r, permission, subject);
        if verdict(rs, permission, subject) is None {
            assert forall|i: int| 0 <= i < rs.len() implies !(covers(permission, (#[trigger] rs[i]).permission) && covers(
                subject,
                rs[i].pattern,
            )) by {
                if i < d.len() {
                    assert(d[i] == rs[i]);
                } else {
                    assert(!applies(rs.last(), permission, subject));
                }
            }
        } else if applies(rs.last(), permission, subject) {
            assert(covers(permission, rs[rs.len() - 1].permission));
        } else {
            let i = choose|i: int|
                0 <= i < d.len() && covers(permission, (#[trigger] d[i]).permission) && covers(subject, d[i].pattern);
            assert(rs[i] == d[i]);
        }
    }
}

// ───────────────────────────── subagents ─────────────────────────────

/// The rules of a child: what its parent is denied and what it says of other directories;
/// and that it may not keep a list or call tasks, unless its agent says otherwise. There are
/// no others.
pub proof fn children_have_no_other_rules(parent: Seq<RuleView>, own: Seq<RuleView>, r: RuleView)
    ensures
        child_rules(parent, own).contains(r) <==> {
            ||| parent.contains(r) && (r.permission == "external_directory"@ || r.action == Action::Deny)
            ||| r.action == Action::Deny && r.pattern == "*"@ && r.permission == "task"@ && forall|i: int|
                0 <= i < own.len() ==> (#[trigger] own[i]).permission != "task"@ || own[i].action == Action::Deny
            ||| r.action == Action::Deny && r.pattern == "*"@ && r.permission == "todowrite"@ && forall|i: int|
                0 <= i < own.len() ==> (#[trigger] own[i]).permission != "todowrite"@ || own[i].action == Action::Deny
        },
{
    let pred = |x: RuleView| is_inherited(x);
    let f = parent.filter(pred);
    let c = child_rules(parent, own);
    lemma_allows(own, "task"@);
    lemma_allows(own, "todowrite"@);
    let n = f.len() as int;
    if parent.contains(r) && pred(r) {
        let i = choose|i: int| 0 <= i < parent.len() && parent[i] == r;
        parent.lemma_filter_contains(pred, i);
        let j = choose|j: int| 0 <= j < f.len() && f[j] == r;
        assert(c[j] == r);
    }
    if !allows(own, "todowrite"@) {
        assert(c[n] == crate::task::denied("todowrite"@));
    }
    if !allows(own, "task"@) {
        assert(c[c.len() - 1] == crate::task::denied("task"@));
    }
    if c.contains(r) {
        let j = choose|j: int| 0 <= j < c.len() && c[j] == r;
        if j < n {
            assert(f[j] == r);
            assert(f.contains(r));
            parent.lemma_filter_contains_rev(pred, r);
            parent.lemma_filter_pred(pred, j);
        }
    }
}

proof fn lemma_allows(own: Seq<RuleView>, p: Seq<char>)
    ensures
        !allows(own, p) <==> forall|i: int|
            0 <= i < own.len() ==> (#[trigger] own[i]).permission != p || own[i].action == Action::Deny,
{
    if !allows(own, p) {
        assert forall|i: int| 0 <= i < own.len() implies (#[trigger] own[i]).permission != p || own[i].action
            == Action::Deny by {
            assert(!crate::task::lets(own[i], p));
        }
    } else {
        let i = choose|i: int| 0 <= i < own.len() && crate::task::lets(#[trigger] own[i], p);
        assert(own[i].permission == p);
    }
}

/// A child is denied the tools that only main agents have, behind its other rules.
pub proof fn children_are_denied_main_tools(parent: Option<Ruleset>, a: Agent, tools: Option<Vec<String>>, i: int)
    ensures
        tools matches Some(t) ==> 0 <= i < t@.len() ==> {
            let r = new_session_rules(parent, a, tools);
            &&& r.len() >= t@.len()
            &&& r[r.len() - t@.len() + i] == (RuleView { permission: t@[i]@, pattern: "*"@, action: Action::Deny })
        },
{
}

/// Those agents can be called that are not for the user alone and that the caller is not
/// denied.
pub proof fn callable_agents_are_listed(agents: Seq<Agent>, caller: Seq<RuleView>, a: Agent)
    ensures
        callable(agents, caller).contains(a) <==> agents.contains(a) && a.mode != AgentMode::Primary && verdict(
            caller,
            "task"@,
            a.name@,
        ) != Some(Action::Deny),
{
    let pred = |x: Agent| crate::task::is_callable(x, caller);
    let f = agents.filter(pred);
    if f.contains(a) {
        agents.lemma_filter_contains_rev(pred, a);
        let i = choose|i: int| 0 <= i < f.len() && f[i] == a;
        agents.lemma_filter_pred(pred, i);
    }
    if agents.contains(a) && pred(a) {
        let i = choose|i: int| 0 <= i < agents.len() && agents[i] == a;
        agents.lemma_filter_contains(pred, i);
    }
}

/// The list has a line for each of them, in the order of their names.
pub proof fn agents_are_listed_by_name(list: Seq<Agent>, i: int, j: int)
    requires
        0 <= i < j < list.len(),
    ensures
        agent_lines(list).len() == list.len(),
        exists|a: int, b: int|
            0 <= a < list.len() && 0 <= b < list.len() && a != b && agent_lines(list)[i] == agent_line(#[trigger] list[a])
                && agent_lines(list)[j] == agent_line(#[trigger] list[b]) && !crate::text::lex_lt(
                list[b].name@,
                list[a].name@,
            ),
{
    crate::sort::order_is_stable::<String>(agent_names(list));
    let p = order::<String>(agent_names(list));
    let a = p[i];
    let b = p[j];
    assert(a != b);
    assert(agent_names(list)[a] == list[a].name@ && agent_names(list)[b] == list[b].name@);
    assert(agent_lines(list)[i] == agent_line(list[a]));
    assert(agent_lines(list)[j] == agent_line(list[b]));
}

/// A line names its agent and says what it is for, or that only the user should call it.
pub proof fn agent_lines_say_what_for(a: Agent)
    ensures
        a.description matches Some(d) ==> agent_line(a) == "- "@ + a.name@ + ": "@ + d@,
        a.description is None ==> agent_line(a) == "- "@ + a.name@ + ": "@
            + "This subagent should only be called manually by the user."@,
{
}

/// A child runs on its agent's model without a variant, else on that of the reply that
/// called it with its variant; what is told of the task names the agent's model as it is
/// set, else the caller's without a variant.
pub proof fn children_run_on_a_model(run: ModelRef, told: ModelRef, a: Agent, caller: Option<Message>)
    requires
        is_child_model(run, a, caller),
        is_named_model(told, a, caller),
    ensures
        run.provider_id@ == told.provider_id@ && run.model_id@ == told.model_id@,
        a.model matches Some(m) ==> run.provider_id@ == m.provider_id@ && run.model_id@ == m.model_id@ && run.variant is None
            && opt_text(told.variant) == opt_text(m.variant),
        a.model is None ==> told.variant is None,
        a.model is None && (caller matches Some(Message::Assistant(_))) ==> run.provider_id@
            == caller->0->Assistant_0.provider_id@ && run.model_id@ == caller->0->Assistant_0.model_id@ && opt_text(
            run.variant,
        ) == opt_text(caller->0->Assistant_0.variant),
        a.model is None && !(caller matches Some(Message::Assistant(_))) ==> run.provider_id@.len() == 0
            && run.model_id@.len() == 0 && run.variant is None,
{
    if run.provider_id@.len() == 0 && told.provider_id@.len() == 0 {
        assert(run.provider_id@ =~= told.provider_id@);
    }
    if run.model_id@.len() == 0 && told.model_id@.len() == 0 {
        assert(run.model_id@ =~= told.model_id@);
    }
}

/// The last tool call that failed says why; the last text is the answer.
pub proof fn the_last_part_counts(parts: Seq<Part>, p: Part)
    ensures
        last_tool_error(Seq::empty()) is None && last_text(Seq::empty()) is None,
        p.kind matches PartKind::Tool { state: ToolState::Error { error, .. }, .. } ==> last_tool_error(parts.push(p)) == Some(
            error@,
        ),
        !(p.kind matches PartKind::Tool { state: ToolState::Error { .. }, .. }) ==> last_tool_error(parts.push(p))
            == last_tool_error(parts),
        p.kind matches PartKind::Text { text, .. } ==> last_text(parts.push(p)) == Some(text@),
        !(p.kind is Text) ==> last_text(parts.push(p)) == last_text(parts),
{
    assert(parts.push(p).drop_last() =~= parts);
}

/// A task failed where its reply ended in an error, or else where a tool call of it did; a
/// task that did not is answered with its last text.
pub proof fn tasks_fail_or_answer(id: Seq<char>, m: MessageWithParts)
    ensures
        (m.info matches Message::Assistant(a) && a.error is Some) ==> child_failure(m) == Some(
            (m.info->Assistant_0.error->0).text(),
        ),
        !(m.info matches Message::Assistant(a) && a.error is Some) ==> child_failure(m) == last_tool_error(m.parts@),
        last_text(m.parts@) matches Some(t) ==> answer_of(id, m) == "<task id=\""@ + id
            + "\" state=\""@ + "completed"@ + "\">\n<"@ + "task_result"@ + ">\n"@ + t + "\n</"@ + "task_result"@
            + ">\n</task>"@,
{
    reveal_strlit("completed");
    reveal_strlit("error");
    assert("completed"@.len() == 9 && "error"@.len() == 5);
}

/// A child is titled by what it does and by who does it.
pub proof fn children_are_titled(args: TaskArgs, a: Agent)
    ensures
        title_of_child(args, a) == args.description@ + " (@"@ + a.name@ + " subagent)"@,
{
}

// ───────────────────────────── snapshots and instructions ─────────────────────────────

/// The first snapshot of a session is that of its first step that has one.
pub proof fn the_first_snapshot_counts(msgs: Seq<MessageWithParts>, m: MessageWithParts, parts: Seq<Part>, p: Part)
    ensures
        first_snapshot(Seq::empty()) is None && first_in_parts(Seq::empty()) is None,
        first_in_parts(seq![p] + parts) == (if snapshot_of(p) is Some {
            snapshot_of(p)
        } else {
            first_in_parts(parts)
        }),
        first_snapshot(seq![m] + msgs) == (if first_in_parts(m.parts@) is Some {
            first_in_parts(m.parts@)
        } else {
            first_snapshot(msgs)
        }),
        snapshot_of(p) is Some <==> (p.kind matches PartKind::StepStart { snapshot } && snapshot is Some),
        p.kind matches PartKind::StepStart { snapshot: Some(s) } ==> snapshot_of(p) == Some(s@),
{
    assert((seq![p] + parts).skip(1) =~= parts);
    assert((seq![m] + msgs).skip(1) =~= msgs);
}

/// Instructions are looked for in the folders from the file up to the root, which is not one
/// of them: each is the parent of the one before.
pub proof fn folders_go_up_to_the_root(dir: Option<Seq<char>>, root: Seq<char>)
    ensures
        dir is None ==> dirs_below(dir, root).len() == 0,
        dir matches Some(d) ==> (!under(d, root) || same_path(d, root) ==> dirs_below(dir, root).len() == 0),
        dir matches Some(d) ==> (under(d, root) && !same_path(d, root) ==> dirs_below(dir, root) == seq![d] + dirs_below(
            parent(d),
            root,
        )),
{
}

proof fn lemma_loaded_parts(parts: Seq<Part>, path: Seq<char>)
    ensures
        loaded_in_parts(parts).contains(path) <==> exists|i: int|
            0 <= i < parts.len() && loaded_by(#[trigger] parts[i]).contains(path),
    decreases parts.len(),
{
    if parts.len() > 0 {
        let d = parts.drop_last();
        lemma_loaded_parts(d, path);
        let before = loaded_in_parts(d);
        let own = loaded_by(parts.last());
        let all = loaded_in_parts(parts);
        if before.contains(path) {
            let x = choose|x: int| 0 <= x < before.len() && before[x] == path;
            assert(all[x] == path);
            let i = choose|i: int| 0 <= i < d.len() && loaded_by(#[trigger] d[i]).contains(path);
            assert(parts[i] == d[i]);
        }
        if own.contains(path) {
            let x = choose|x: int| 0 <= x < own.len() && own[x] == path;
            assert(all[before.len() + x] == path);
            assert(loaded_by(parts[parts.len() - 1]).contains(path));
        }
        if all.contains(path) {
            let x = choose|x: int| 0 <= x < all.len() && all[x] == path;
            if x < before.len() {
                assert(before[x] == path);
            } else {
                assert(own[x - before.len()] == path);
            }
        }
        if exists|i: int| 0 <= i < parts.len() && loaded_by(#[trigger] parts[i]).contains(path) {
            let i = choose|i: int| 0 <= i < parts.len() && loaded_by(#[trigger] parts[i]).contains(path);
            if i < d.len() {
                assert(d[i] == parts[i]);
            }
        }
    }
}

/// What a session has loaded already is what its completed reads loaded, unless they were
/// compacted.
pub proof fn reads_load_instructions(msgs: Seq<MessageWithParts>, m: MessageWithParts, p: Part, path: Seq<char>)
    ensures
        loaded(Seq::empty()).len() == 0,
        loaded(msgs.push(m)) == loaded(msgs) + loaded_in_parts(m.parts@),
        loaded_in_parts(m.parts@).contains(path) <==> exists|i: int|
            0 <= i < m.parts@.len() && loaded_by(#[trigger] m.parts@[i]).contains(path),
        loaded_by(p).contains(path) <==> (p.kind matches PartKind::Tool { tool, state } && tool@ == "read"@ && (
        state matches ToolState::Completed { compacted, loaded, .. } && !compacted && (loaded matches Some(v) && texts(v@).contains(
            path,
        )))),
{
    assert(msgs.push(m).drop_last() =~= msgs);
    lemma_loaded_parts(m.parts@, path);
}

/// An instruction file is new where it is not the file that is read, no part of the system
/// prompt, and not loaded before.
pub proof fn known_instructions_are_not_new(n: Nesting, found: Seq<char>)
    ensures
        same_path(found, n.file@) ==> !n.is_new(found),
        n.is_new(found) ==> !texts(n.already@).contains(found) && forall|i: int|
            0 <= i < n.system@.len() ==> !same_path((#[trigger] n.system@[i])@, found),
        !same_path(found, n.file@) && !texts(n.already@).contains(found) && (forall|i: int|
            0 <= i < n.system@.len() ==> !same_path((#[trigger] n.system@[i])@, found)) ==> n.is_new(found),
{
    let s = texts(n.system@);
    if n.is_new(found) {
        assert forall|i: int| 0 <= i < n.system@.len() implies !same_path((#[trigger] n.system@[i])@, found) by {
            assert(s[i] == n.system@[i]@);
        }
    }
    if crate::engine::lists_path(s, found) {
        let i = choose|i: int| 0 <= i < s.len() && same_path(#[trigger] s[i], found);
        assert(s[i] == n.system@[i]@);
    }
}

/// Of what is found everything new is taken that no one has claimed yet, and claimed.
pub proof fn new_instructions_are_taken(
    n: Nesting,
    found: Seq<Option<Seq<char>>>,
    f: Option<Seq<char>>,
    claims: Set<Seq<Seq<char>>>,
)
    ensures
        taken(n, Seq::empty(), claims) == (Seq::<Seq<char>>::empty(), claims),
        ({
            let (out, now) = taken(n, found, claims);
            taken(n, found.push(f), claims) == (match f {
                Some(p) => if n.is_new(p) && !now.contains(components(p)) {
                    (out.push(p), now.insert(components(p)))
                } else {
                    (out, now)
                },
                None => (out, now),
            })
        }),
{
    assert(found.push(f).drop_last() =~= found);
}

/// The text of an MCP server is shown where it has no tools, or where one of them is not
/// denied; its lines are indented within its name.
pub proof fn servers_are_heard(v: Seq<ServerText>, s: ServerText, rs: Ruleset, i: int)
    ensures
        serves(s, rs) <==> s.tools@.len() == 0 || exists|k: int| 0 <= k < s.tools@.len() && #[trigger] allowed(rs, s.tools@[k]@),
        servers_lines(Seq::empty(), rs).len() == 0,
        serves(s, rs) ==> servers_lines(v.push(s), rs) == servers_lines(v, rs) + server_lines(s),
        !serves(s, rs) ==> servers_lines(v.push(s), rs) == servers_lines(v, rs),
        server_lines(s).len() == lines(s.text@).len() + 2,
        server_lines(s)[0] == "  <server name=\""@ + s.name@ + "\">"@,
        server_lines(s).last() == "  </server>"@,
        0 <= i < lines(s.text@).len() ==> server_lines(s)[i + 1] == "    "@ + lines(s.text@)[i],
{
    assert(v.push(s).drop_last() =~= v);
}

/// The arguments of a prompt stand for what is typed in their place.
pub proof fn arguments_are_numbered(args: Seq<Seq<char>>, i: int)
    requires
        0 <= i < args.len(),
        forall|j: int| i < j < args.len() ==> #[trigger] args[j] != args[i],
    ensures
        arg_map(args).contains_key(args[i]),
        arg_map(args)[args[i]] == "$"@ + decimal((i + 1) as nat),
    decreases args.len(),
{
    let d = args.drop_last();
    if i < d.len() {
        assert(d[i] == args[i]);
        assert forall|j: int| i < j < d.len() implies #[trigger] d[j] != d[i] by {
            assert(args[j] != args[i]);
        }
        arguments_are_numbered(d, i);
        assert(args[args.len() - 1] != args[i]);
    }
}

} // verus!
