//! How prompts come in.

use crate::intake::{
    agent_for, all_digits, are_file_parts, are_parts, base64_text, data_url_payload, file_url_path, is_plan,
    model_for, remembers, sextet, sextet_bytes, sextets, toggle_rules, variant_for, FileLook, FreshIds, PartInput,
    PromptPlan, PromptRequest,
};
use crate::permission::{rules, Action};
use crate::provider::{ModelView, Registry};
use crate::session::{
    agent_at, Agent, MessageWithParts, ModelRef, Part, PartKind, SessionInfo, SessionModel, UserMessage,
};
use crate::text::{first_of, join, opt_text, starts_with, trim};
use crate::title::{is_untitled, title_source};
use vstd::prelude::*;

verus! {

// ───────────────────────────── who answers, and on what ─────────────────────────────

/// The agent is the one that was asked for, and none where there is no such; else the one
/// of the session, where it still is there; else the usual one.
pub proof fn agents_are_chosen_in_order(
    agents: Seq<Agent>,
    fallback: int,
    requested: Option<String>,
    session: Option<String>,
)
    ensures
        requested matches Some(n) ==> agent_for(agents, fallback, requested, session) == agent_at(agents, n@),
        requested is None && (session matches Some(n) && agent_at(agents, n@) is Some) ==> agent_for(
            agents,
            fallback,
            requested,
            session,
        ) == agent_at(agents, session->0@),
        requested is None && !(session matches Some(n) && agent_at(agents, n@) is Some) ==> agent_for(
            agents,
            fallback,
            requested,
            session,
        ) == Some(fallback),
{
}

/// The model is the one that was asked for, and none where there is no such; else the
/// agent's, else the session's last, each where it still is there; else the usual one.
pub proof fn models_are_chosen_in_order(
    reg: Registry,
    requested: Option<ModelRef>,
    agent: Option<ModelRef>,
    session: Option<SessionModel>,
    fallback: Option<ModelView>,
)
    ensures
        ({
            let r = model_for(reg, requested, agent, session, fallback);
            let of_agent = agent matches Some(a) && reg.found(a.provider_id@, a.model_id@) is Some;
            let of_session = session matches Some(s) && reg.found(s.provider_id@, s.id@) is Some;
            &&& requested matches Some(q) ==> {
                &&& reg.found(q.provider_id@, q.model_id@) matches Some(m) ==> (r matches Ok(x) && x == m)
                &&& reg.found(q.provider_id@, q.model_id@) is None ==> (r matches Err(why) && why == q.provider_id@ + "/"@
                    + q.model_id@)
            }
            &&& requested is None && of_agent ==> (r matches Ok(x) && Some(x) == reg.found(
                agent->0.provider_id@,
                agent->0.model_id@,
            ))
            &&& requested is None && !of_agent && of_session ==> (r matches Ok(x) && Some(x) == reg.found(
                session->0.provider_id@,
                session->0.id@,
            ))
            &&& requested is None && !of_agent && !of_session ==> (match fallback {
                Some(m) => r matches Ok(x) && x == m,
                None => r matches Err(why) && why
                    == "no provider is configured. Run `lz auth login` or set an API key env var"@,
            })
        }),
{
}

/// A variant that was asked for is taken; that of the agent only where the model has it.
pub proof fn variants_are_chosen_in_order(requested: Option<String>, agent: Option<String>, m: ModelView)
    ensures
        requested matches Some(v) ==> variant_for(requested, agent, m) == Some(v@),
        requested is None && (agent matches Some(v) && m.variants.contains(v@)) ==> variant_for(requested, agent, m) == Some(
            agent->0@,
        ),
        requested is None && !(agent matches Some(v) && m.variants.contains(v@)) ==> variant_for(requested, agent, m) is None,
{
}

/// Turning a tool on or off is a rule for all that it does; the tools that write are one
/// permission.
pub proof fn toggles_are_rules(tools: Seq<(String, bool)>, i: int)
    requires
        0 <= i < tools.len(),
    ensures
        toggle_rules(tools).len() == tools.len(),
        ({
            let r = toggle_rules(tools)[i];
            let t = tools[i].0@;
            &&& r.pattern == "*"@
            &&& tools[i].1 ==> r.action == Action::Allow
            &&& !tools[i].1 ==> r.action == Action::Deny
            &&& t == "write"@ || t == "edit"@ || t == "patch"@ ==> r.permission == "edit"@
            &&& t != "write"@ && t != "edit"@ && t != "patch"@ ==> r.permission == t
        }),
{
}

/// A prompt becomes a message of its session, for the agent and on the model that were
/// chosen; the session remembers these where they are new; and the loop runs unless no
/// reply is wanted.
pub proof fn prompts_become_messages(
    plan: PromptPlan,
    session: SessionInfo,
    session_id: Seq<char>,
    req: PromptRequest,
    agent: Agent,
    m: ModelView,
    fresh: Seq<char>,
    now: u64,
)
    requires
        is_plan(plan, session, session_id, req, agent, m, fresh, now),
    ensures
        plan.info.session_id@ == session_id && plan.info.created == now,
        req.message_id matches Some(id) ==> plan.info.id@ == id@,
        req.message_id is None ==> plan.info.id@ == fresh,
        plan.info.agent@ == agent.name@ && plan.info.model.provider_id@ == m.provider_id && plan.info.model.model_id@ == m.id,
        plan.info.format == req.format && plan.info.system == req.system,
        opt_text(plan.info.model.variant) == variant_for(req.variant, agent.variant, m),
        plan.run <==> !req.no_reply,
        plan.remember is None <==> (session.agent matches Some(a) && a@ == agent.name@) && (session.model matches Some(s)
            && s.provider_id@ == m.provider_id && s.id@ == m.id),
        plan.remember matches Some(r) ==> r.0@ == agent.name@ && r.1.id@ == m.id && r.1.provider_id@ == m.provider_id
            && opt_text(r.1.variant) == variant_for(req.variant, agent.variant, m),
        plan.rules is Some <==> req.tools is Some,
        plan.rules matches Some(r) ==> rules(r@) == toggle_rules(req.tools->0@),
{
}

// ───────────────────────────── what is attached ─────────────────────────────

/// The path of a file address ends where its query starts.
pub proof fn file_addresses_hold_paths(path: Seq<char>, query: Seq<char>, url: Seq<char>)
    requires
        forall|i: int| 0 <= i < path.len() ==> #[trigger] path[i] != '?',
    ensures
        file_url_path("file://"@ + path) == Some(path),
        file_url_path("file://"@ + path + seq!['?'] + query) == Some(path),
        !starts_with(url, "file://"@) ==> file_url_path(url) is None,
{
    let head = "file://"@;
    let a = head + path;
    assert(a.subrange(0, head.len() as int) =~= head);
    assert(a.skip(head.len() as int) =~= path);
    lemma_first_of(path, '?', path.len() as int);
    assert(path.take(path.len() as int) =~= path);
    let b = head + path + seq!['?'] + query;
    let rest = path + seq!['?'] + query;
    assert(b.subrange(0, head.len() as int) =~= head);
    assert(b.skip(head.len() as int) =~= rest);
    assert forall|i: int| 0 <= i < path.len() implies rest[i] != '?' by {
        assert(rest[i] == path[i]);
    }
    lemma_first_of(rest, '?', path.len() as int);
    assert(rest.take(path.len() as int) =~= path);
}

proof fn lemma_first_of(s: Seq<char>, c: char, n: int)
    requires
        0 <= n <= s.len(),
        forall|i: int| 0 <= i < n ==> s[i] != c,
        n < s.len() ==> s[n] == c,
    ensures
        first_of(s, c) == n,
{
    crate::text::lemma_first_of(s, c);
    let k = first_of(s, c);
    if k < n {
        assert(s[k] != c);
    } else if n < k {
        assert(s[n] != c);
    }
}

/// What a data address holds stands behind its first comma.
pub proof fn data_addresses_hold_their_payload(kind: Seq<char>, payload: Seq<char>)
    requires
        forall|i: int| 0 <= i < kind.len() ==> #[trigger] kind[i] != ',',
    ensures
        data_url_payload("data:"@ + kind + seq![','] + payload) == Some(payload),
{
    let head = "data:"@;
    reveal_strlit("data:");
    let u = head + kind + seq![','] + payload;
    assert(u.subrange(0, head.len() as int) =~= head);
    let n = (head.len() + kind.len()) as int;
    assert forall|i: int| 0 <= i < n implies u[i] != ',' by {
        if i >= head.len() {
            assert(u[i] == kind[i - head.len()]);
        } else {
            assert(u[i] == head[i]);
            assert(head.len() == 5);
            assert(head[0] != ',' && head[1] != ',' && head[2] != ',' && head[3] != ',' && head[4] != ',');
        }
    }
    assert(u[n] == ',');
    lemma_first_of(u, ',', n);
    assert(u.skip(n + 1) =~= payload);
}

/// The character of a number below 64.
pub open spec fn base64_digit(d: int) -> char {
    if d < 26 {
        (65 + d) as u8 as char
    } else if d < 52 {
        (71 + d) as u8 as char
    } else if d < 62 {
        (d - 4) as u8 as char
    } else if d == 62 {
        '+'
    } else {
        '/'
    }
}

/// The six bits at a place of some bytes, which end in zeros.
pub open spec fn six_bits(b: Seq<u8>, j: int) -> int {
    let q = 3 * (j / 4);
    let x = if q < b.len() {
        b[q] as int
    } else {
        0
    };
    let y = if q + 1 < b.len() {
        b[q + 1] as int
    } else {
        0
    };
    let z = if q + 2 < b.len() {
        b[q + 2] as int
    } else {
        0
    };
    if j % 4 == 0 {
        x / 4
    } else if j % 4 == 1 {
        (x % 4) * 16 + y / 16
    } else if j % 4 == 2 {
        (y % 16) * 4 + z / 64
    } else {
        z % 64
    }
}

/// Bytes in base 64, without what fills up the last four digits.
pub open spec fn base64_of(b: Seq<u8>) -> Seq<char> {
    Seq::new(((4 * b.len() + 2) / 3) as nat, |j: int| base64_digit(six_bits(b, j)))
}

proof fn lemma_six_bits(b: Seq<u8>, j: int)
    requires
        j >= 0,
    ensures
        0 <= six_bits(b, j) < 64,
{
}

proof fn lemma_digit(d: int)
    requires
        0 <= d < 64,
    ensures
        sextet(base64_digit(d)) == Some(d),
        base64_digit(d) != '=',
{
}

/// Decoding gives back the text whose bytes were encoded, with or without what fills it
/// up.
pub proof fn base64_gives_back_the_text(b: Seq<u8>, fill: Seq<char>)
    requires
        vstd::utf8::valid_utf8(b),
        fill.len() == 0 || fill[0] == '=',
    ensures
        base64_text(base64_of(b) + fill) == Some(vstd::utf8::decode_utf8(b)),
{
    let e = base64_of(b);
    let s = e + fill;
    assert forall|i: int| 0 <= i < e.len() implies s[i] != '=' && sextet(#[trigger] e[i]) == Some(six_bits(b, i)) by {
        lemma_six_bits(b, i);
        lemma_digit(six_bits(b, i));
        assert(s[i] == e[i]);
    }
    if fill.len() > 0 {
        assert(s[e.len() as int] == '=');
    }
    lemma_first_of(s, '=', e.len() as int);
    assert(s.take(e.len() as int) =~= e);
    assert(all_digits(e));
    assert forall|i: int| 0 <= i < e.len() implies #[trigger] sextets(e)[i] == six_bits(b, i) by {
        assert(sextet(e[i]) == Some(six_bits(b, i)));
    }
    lemma_bytes_back(b, sextets(e));
}

proof fn lemma_pack(x: int, y: int, z: int)
    requires
        0 <= x < 256,
        0 <= y < 256,
        0 <= z < 256,
    ensures
        (x / 4) * 4 + ((x % 4) * 16 + y / 16) / 16 == x,
        (((x % 4) * 16 + y / 16) % 16) * 16 + ((y % 16) * 4 + z / 64) / 4 == y,
        (((y % 16) * 4 + z / 64) % 4) * 64 + z % 64 == z,
{
}

proof fn lemma_bytes_back(b: Seq<u8>, v: Seq<int>)
    requires
        v.len() == (4 * b.len() + 2) / 3,
        forall|j: int| 0 <= j < v.len() ==> #[trigger] v[j] == six_bits(b, j),
    ensures
        sextet_bytes(v) == b,
{
    let out = sextet_bytes(v);
    let n = b.len() as int;
    assert(v.len() * 3 / 4 == n);
    assert forall|k: int| 0 <= k < n implies #[trigger] out[k] == b[k] by {
        lemma_byte_back(b, v, k);
    }
    assert(out =~= b);
}

proof fn lemma_byte_back(b: Seq<u8>, v: Seq<int>, k: int)
    requires
        v.len() == (4 * b.len() + 2) / 3,
        forall|j: int| 0 <= j < v.len() ==> #[trigger] v[j] == six_bits(b, j),
        0 <= k < b.len(),
    ensures
        sextet_bytes(v)[k] == b[k],
{
    let q = k / 3;
    let j = 4 * q;
    let n = b.len() as int;
    assert(k == 3 * q + k % 3);
    let x = b[3 * q] as int;
    let y = if 3 * q + 1 < n {
        b[3 * q + 1] as int
    } else {
        0
    };
    let z = if 3 * q + 2 < n {
        b[3 * q + 2] as int
    } else {
        0
    };
    lemma_pack(x, y, z);
    assert(v.len() * 3 / 4 == n);
    assert(j / 4 == q && j % 4 == 0);
    assert((j + 1) / 4 == q && (j + 1) % 4 == 1);
    assert(j + 1 < v.len());
    assert(v[j] == x / 4);
    assert(v[j + 1] == (x % 4) * 16 + y / 16);
    if k % 3 >= 1 {
        assert((j + 2) / 4 == q && (j + 2) % 4 == 2);
        assert(j + 2 < v.len());
        assert(v[j + 2] == (y % 16) * 4 + z / 64);
    }
    if k % 3 == 2 {
        assert((j + 3) / 4 == q && (j + 3) % 4 == 3);
        assert(j + 3 < v.len());
        assert(v[j + 3] == z % 64);
    }
}

/// A text, an agent and a subtask are one part each, as they were given.
pub proof fn plain_parts_are_kept(parts: Seq<Part>, info: UserMessage, input: PartInput, ids: FreshIds)
    requires
        are_parts(parts, info, input, ids),
    ensures
        forall|i: int|
            0 <= i < parts.len() ==> (#[trigger] parts[i]).session_id@ == info.session_id@ && parts[i].message_id@ == info.id@,
        input matches PartInput::Text { text, synthetic, ignored, .. } ==> parts.len() == 1 && (
        parts[0].kind matches PartKind::Text { text: t, synthetic: s, ignored: g } && t@ == text@ && s == synthetic && g
            == ignored),
        input matches PartInput::Agent { name, .. } ==> parts.len() == 1 && (parts[0].kind matches PartKind::Agent {
            name: n,
            ..
        } && n@ == name@),
        input matches PartInput::Subtask { prompt, agent, .. } ==> parts.len() == 1 && (
        parts[0].kind matches PartKind::Subtask { prompt: p, agent: a, .. } && p == prompt && a == agent),
        input matches PartInput::File { mime, url, filename, .. } ==> {
            let last = parts[parts.len() - 1];
            &&& last.kind matches PartKind::File { mime: m, url: u, .. } && m@ == mime@ && u@ == url@
            &&& mime@ == "text/plain"@ && data_url_payload(url@) is Some ==> parts.len() == 3 && (
            parts[1].kind matches PartKind::Text { text, synthetic, ignored } && synthetic && !ignored && (base64_text(
                data_url_payload(url@)->0,
            ) matches Some(t) ==> text@ == t))
            &&& !(mime@ == "text/plain"@ && data_url_payload(url@) is Some) ==> parts.len() == 1
        },
{
}

/// What was read of a file stands before it as if a tool had read it: a call, the content
/// or the listing, and the file. What is no text is the file alone; what could not be read
/// is said.
pub proof fn files_are_shown_as_read(
    parts: Seq<Part>,
    info: UserMessage,
    input: PartInput,
    ids: FreshIds,
    path: Seq<char>,
    look: FileLook,
)
    requires
        are_file_parts(parts, info, input, ids, path, look),
    ensures
        forall|i: int|
            0 <= i < parts.len() ==> (#[trigger] parts[i]).session_id@ == info.session_id@ && parts[i].message_id@ == info.id@,
        look matches FileLook::Text { text } ==> parts.len() == 3 && (parts[1].kind matches PartKind::Text { text: t, .. } && t@
            == text@) && (parts[2].kind matches PartKind::File { mime, .. } && mime@ == "text/plain"@),
        look matches FileLook::Directory { listing } ==> parts.len() == 3 && (parts[1].kind matches PartKind::Text {
            text: t,
            ..
        } && t@ == listing@) && (parts[2].kind matches PartKind::File { mime, .. } && mime@ == "application/x-directory"@),
        look is Text || look is Directory ==> (parts[0].kind matches PartKind::Text { text, synthetic, .. } && synthetic && text@
            == "Called the Read tool with the following input: {\"filePath\":"@ + ("\""@ + path + "\""@) + "}"@),
        look matches FileLook::Binary { mime, data_url } ==> parts.len() == 1 && (parts[0].kind matches PartKind::File {
            mime: m,
            url,
            ..
        } && m@ == mime@ && url@ == data_url@),
        look matches FileLook::Failed { error } ==> parts.len() == 1 && (parts[0].kind matches PartKind::Text {
            text,
            synthetic,
            ..
        } && synthetic && text@ == "[Failed to read file "@ + path + ": "@ + error@ + "]"@),
{
}

// ───────────────────────────── titles ─────────────────────────────

/// A session gets a title where it has none yet and is nobody's child.
pub proof fn new_sessions_get_titles(s: SessionInfo)
    ensures
        is_untitled(s) <==> s.parent_id is None && starts_with(s.title@, "New session"@),
{
}

/// A title is made from up to 4000 characters of what the user wrote, if that is anything.
pub proof fn titles_are_made_from_texts(history: Seq<MessageWithParts>)
    ensures
        ({
            let all = join(crate::session::all_user_texts(history), "\n"@);
            match title_source(history) {
                Some(t) => trim(all).len() > 0 && t.len() <= 4000 && t == all.take(t.len() as int) && (t.len() < 4000 ==> t
                    == all),
                None => trim(all).len() == 0,
            }
        }),
{
    let all = join(crate::session::all_user_texts(history), "\n"@);
    if all.len() <= 4000 {
        assert(all.take(all.len() as int) =~= all);
    }
}

/// A part keeps the id that it came with, and gets a new one where it had none.
pub proof fn parts_keep_their_ids(parts: Seq<Part>, info: UserMessage, input: PartInput, ids: FreshIds)
    requires
        are_parts(parts, info, input, ids),
    ensures
        ({
            let last = parts[parts.len() - 1].id@;
            &&& input matches PartInput::Text { id, .. } ==> (match id {
                Some(i) => last == i@,
                None => last == ids.part@,
            })
            &&& input matches PartInput::Agent { id, .. } ==> (match id {
                Some(i) => last == i@,
                None => last == ids.part@,
            })
            &&& input matches PartInput::Subtask { id, .. } ==> (match id {
                Some(i) => last == i@,
                None => last == ids.part@,
            })
            &&& input matches PartInput::File { id, .. } ==> (match id {
                Some(i) => last == i@,
                None => last == ids.part@,
            })
        }),
{
}

/// A title needs no tools, no images and no room.
pub proof fn titles_need_little()
    ensures
        !crate::title::title_need().tools && !crate::title::title_need().vision && crate::title::title_need().tokens == 0,
{
}

/// The call and the content before a file have new ids, and the file keeps its name and source.
pub proof fn files_keep_their_names(
    parts: Seq<Part>,
    info: UserMessage,
    input: PartInput,
    ids: FreshIds,
    path: Seq<char>,
    look: FileLook,
)
    requires
        are_file_parts(parts, info, input, ids, path, look),
    ensures
        look is Text || look is Directory ==> parts[0].id@ == ids.call@ && parts[1].id@ == ids.content@,
        !(look is Failed) ==> (input matches PartInput::File { id, filename, source, .. } && (
        parts[parts.len() - 1].kind matches PartKind::File { filename: f, source: s, .. } && opt_text(f) == opt_text(
            filename,
        ) && opt_text(s) == opt_text(source)) && parts[parts.len() - 1].id@ == (match id {
            Some(i) => i@,
            None => ids.part@,
        })),
        look is Text || look is Directory ==> (input matches PartInput::File { url, .. } && (
        parts[2].kind matches PartKind::File { url: u, .. } && u@ == url@)),
        look is Failed ==> parts[0].id@ == ids.call@,
{
}

/// The tools that a prompt turns on or off are kept with it.
pub proof fn toggles_are_kept(
    plan: PromptPlan,
    session: SessionInfo,
    session_id: Seq<char>,
    req: PromptRequest,
    agent: Agent,
    m: ModelView,
    fresh: Seq<char>,
    now: u64,
)
    requires
        is_plan(plan, session, session_id, req, agent, m, fresh, now),
    ensures
        plan.info.tools is Some <==> req.tools is Some,
        req.tools matches Some(t) ==> plan.info.tools->0@ == t@,
{
}

} // verus!
