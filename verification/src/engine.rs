//! The composition root of one project directory: the decisions it takes
//! between storage, configuration, tools and sessions.

use crate::path::{
    components, is_same_path, is_under, joined_path, join_path, parent, parent_is_shorter, parent_of, same_path,
    under,
};
use crate::paths::Paths;
use crate::permission::{evaluate, rules, verdict, Action, Ruleset};
use crate::runner::PromptError;
use crate::session::{find_last_user, last_user, MessageWithParts, Part, PartKind, SessionInfo, ToolState};
use crate::shared::{claimed, Claims, SessionRunner};
use crate::table::Table;
use crate::text::{decimal, decimal_of, has_text, join, joined, lines, lines_of, opt_text, same, texts, trim, trimmed};
use vstd::prelude::*;

verus! {

// ───────────────────────────── start ─────────────────────────────

#[derive(Debug)]
pub struct EngineOptions {
    pub directory: String,
    pub auto_approve: bool,
    /// Skip the network catalog refresh (fast startup / tests).
    pub offline: bool,
}

/// The `lsp` entry of the configuration.
#[derive(Debug, Clone, Copy, PartialEq, Eq, Structural)]
pub enum LspConfig {
    Enabled(bool),
    /// servers of one's own, however many
    Servers,
}

/// Whether language servers are used: not unless they are asked for.
pub fn lsp_enabled(config: Option<LspConfig>) -> (b: bool)
    ensures
        b == (config == Some(LspConfig::Enabled(true)) || config == Some(LspConfig::Servers)),
{
    match config {
        Some(LspConfig::Enabled(b)) => b,
        Some(LspConfig::Servers) => true,
        None => false,
    }
}

/// How long an MCP server may take, in milliseconds.
pub fn mcp_timeout(config: Option<u64>) -> (ms: u64)
    ensures
        ms == (match config {
            Some(t) => t,
            None => 30_000,
        }),
{
    match config {
        Some(t) => t,
        None => 30_000,
    }
}

/// Where the pool's ledger is kept.
pub fn quota_path(paths: &Paths) -> (p: String)
    ensures
        p@ == joined_path(paths.state@, "quota.json"@),
{
    join_path(paths.state.as_str(), "quota.json")
}

/// Whether MCP servers are connected at the start: there are any, and the network
/// may be used.
pub fn connects_at_start(opts: &EngineOptions, servers: Option<usize>) -> (b: bool)
    ensures
        b == (!opts.offline && (servers matches Some(n) && n > 0)),
{
    !opts.offline && (match servers {
        Some(n) => n > 0,
        None => false,
    })
}

/// Where things are, for clients.
#[derive(Debug)]
pub struct PathInfo {
    pub cwd: String,
    pub root: String,
    pub worktree: String,
    pub directory: String,
    pub config: String,
    pub data: String,
    pub state: String,
}

pub fn path_info(paths: &Paths, directory: &str, worktree: &str) -> (r: PathInfo)
    ensures
        r.cwd@ == directory@,
        r.root@ == worktree@,
        r.worktree@ == worktree@,
        r.directory@ == directory@,
        r.config == paths.config,
        r.data == paths.data,
        r.state == paths.state,
{
    PathInfo {
        cwd: directory.to_owned(),
        root: worktree.to_owned(),
        worktree: worktree.to_owned(),
        directory: directory.to_owned(),
        config: paths.config.clone(),
        data: paths.data.clone(),
        state: paths.state.clone(),
    }
}

// ───────────────────────────── errors ─────────────────────────────

/// What storage fails with.
#[derive(Debug)]
pub enum StorageError {
    NotFound(String),
    /// any other failure, as it is shown
    Other(String),
}

/// What a client is answered.
#[derive(Debug)]
pub enum ApiError {
    NotFound { message: String },
    Invalid { message: String },
    Internal { message: String },
    Busy,
}

pub fn storage_err(e: StorageError) -> (r: ApiError)
    ensures
        r == (match e {
            StorageError::NotFound(message) => ApiError::NotFound { message },
            StorageError::Other(message) => ApiError::Internal { message },
        }),
{
    match e {
        StorageError::NotFound(message) => ApiError::NotFound { message },
        StorageError::Other(message) => ApiError::Internal { message },
    }
}

/// What a client is answered when a prompt is refused.
pub fn prompt_err(e: PromptError) -> (r: ApiError)
    ensures
        e is Busy <==> r is Busy,
        !(e is Busy) ==> (r matches ApiError::Invalid { message } && message@ == e.text()),
{
    match e {
        PromptError::Busy => ApiError::Busy,
        other => ApiError::Invalid { message: other.message() },
    }
}

/// The reply to a prompt, given the history once its loop is over: the last
/// assistant message, where there is one.
pub fn prompt_reply(msgs: &Vec<MessageWithParts>) -> (r: Result<usize, ApiError>)
    ensures
        match r {
            Ok(i) => crate::session::last_reply(msgs@) == Some(i as int) && i < msgs@.len(),
            Err(e) => crate::session::last_reply(msgs@) is None && (e matches ApiError::NotFound {
                message,
            } && message@ == "no assistant message"@),
        },
{
    match crate::session::last_assistant(msgs) {
        Some(i) => Ok(i),
        None => Err(ApiError::NotFound { message: "no assistant message".to_owned() }),
    }
}

/// Whether a shell command may run in a session: not while its loop runs.
pub fn admit_shell(runner: &SessionRunner, session_id: &str) -> (r: Result<(), ApiError>)
    ensures
        r is Ok <==> !runner@.contains_key(session_id@),
        r matches Err(e) ==> e is Busy,
{
    if runner.is_running(session_id) {
        Err(ApiError::Busy)
    } else {
        Ok(())
    }
}

/// Whether a session takes a prompt: not while its loop runs.
pub fn admit_prompt(runner: &SessionRunner, session_id: &str) -> (r: Result<(), PromptError>)
    ensures
        r is Ok <==> !runner@.contains_key(session_id@),
        r matches Err(e) ==> e is Busy,
{
    if runner.is_running(session_id) {
        Err(PromptError::Busy)
    } else {
        Ok(())
    }
}

/// The user message that a summary goes by: the last one.
pub fn summarized_message(msgs: &Vec<MessageWithParts>) -> (r: Result<usize, ApiError>)
    ensures
        match r {
            Ok(i) => last_user(msgs@) == Some(i as int) && i < msgs@.len()
                && msgs@[i as int].info is User,
            Err(e) => last_user(msgs@) is None && (e matches ApiError::Invalid { message }
                && message@ == "session has no messages"@),
        },
{
    match find_last_user(msgs) {
        Some(i) => Ok(i),
        None => Err(ApiError::Invalid { message: "session has no messages".to_owned() }),
    }
}

/// Forking a session is not offered.
pub fn fork() -> (e: ApiError)
    ensures
        e matches ApiError::Invalid { message } && message@ == "fork not implemented yet"@,
{
    ApiError::Invalid { message: "fork not implemented yet".to_owned() }
}

// ───────────────────────────── sessions ─────────────────────────────

/// What a client changes of a session. `archived` may also be taken back.
pub struct SessionPatch {
    pub title: Option<String>,
    pub archived: Option<Option<u64>>,
    pub permission: Option<Ruleset>,
}

pub fn update_session(s: &mut SessionInfo, patch: SessionPatch)
    ensures
        *final(s) == (SessionInfo {
            title: match patch.title {
                Some(t) => t,
                None => old(s).title,
            },
            archived: match patch.archived {
                Some(a) => a,
                None => old(s).archived,
            },
            permission: match patch.permission {
                Some(p) => Some(p),
                None => old(s).permission,
            },
            ..*old(s)
        }),
{
    if let Some(t) = patch.title {
        s.title = t;
    }
    if let Some(a) = patch.archived {
        s.archived = a;
    }
    if let Some(p) = patch.permission {
        s.permission = Some(p);
    }
}

pub open spec fn snapshot_of(p: Part) -> Option<Seq<char>> {
    match p.kind {
        PartKind::StepStart { snapshot: Some(s) } => Some(s@),
        _ => None,
    }
}

/// The first snapshot among some parts.
pub open spec fn first_in_parts(parts: Seq<Part>) -> Option<Seq<char>>
    decreases parts.len(),
{
    if parts.len() == 0 {
        None
    } else if snapshot_of(parts[0]) is Some {
        snapshot_of(parts[0])
    } else {
        first_in_parts(parts.skip(1))
    }
}

/// The first snapshot of a history.
pub open spec fn first_snapshot(msgs: Seq<MessageWithParts>) -> Option<Seq<char>>
    decreases msgs.len(),
{
    if msgs.len() == 0 {
        None
    } else if first_in_parts(msgs[0].parts@) is Some {
        first_in_parts(msgs[0].parts@)
    } else {
        first_snapshot(msgs.skip(1))
    }
}

fn find_in_parts(parts: &Vec<Part>) -> (r: Option<String>)
    ensures
        opt_text(r) == first_in_parts(parts@),
{
    let mut i: usize = 0;
    assert(parts@.skip(0) =~= parts@);
    while i < parts.len()
        invariant
            i <= parts@.len(),
            first_in_parts(parts@) == first_in_parts(parts@.skip(i as int)),
        decreases parts@.len() - i,
    {
        assert(parts@.skip(i as int)[0] == parts@[i as int]);
        if let PartKind::StepStart { snapshot: Some(s) } = &parts[i].kind {
            return Some(s.clone());
        }
        assert(parts@.skip(i as int).skip(1) =~= parts@.skip(i + 1));
        i += 1;
    }
    None
}

/// Where a session's diff starts: at its first snapshot, if it has one.
pub fn find_first_snapshot(msgs: &Vec<MessageWithParts>) -> (r: Option<String>)
    ensures
        opt_text(r) == first_snapshot(msgs@),
{
    let mut i: usize = 0;
    assert(msgs@.skip(0) =~= msgs@);
    while i < msgs.len()
        invariant
            i <= msgs@.len(),
            first_snapshot(msgs@) == first_snapshot(msgs@.skip(i as int)),
        decreases msgs@.len() - i,
    {
        assert(msgs@.skip(i as int)[0] == msgs@[i as int]);
        let r = find_in_parts(&msgs[i].parts);
        if r.is_some() {
            return r;
        }
        assert(msgs@.skip(i as int).skip(1) =~= msgs@.skip(i + 1));
        i += 1;
    }
    None
}

// ───────────────────────────── nested instructions ─────────────────────────────

/// The directories from `dir` up to `root`, nearest first, without `root`.
pub open spec fn dirs_below(dir: Option<Seq<char>>, root: Seq<char>) -> Seq<Seq<char>>
    decreases
            match dir {
                Some(d) => d.len() + 1,
                None => 0,
            },
    when true via dirs_below_ends
{
    match dir {
        Some(d) => if !under(d, root) || same_path(d, root) {
            Seq::empty()
        } else {
            seq![d] + dirs_below(parent(d), root)
        },
        None => Seq::empty(),
    }
}

#[via_fn]
proof fn dirs_below_ends(dir: Option<Seq<char>>, root: Seq<char>) {
    if let Some(d) = dir {
        parent_is_shorter(d);
    }
}

/// The directories between a file and the project root where instruction files
/// are looked for, nearest first.
pub fn instruction_dirs(file: &str, root: &str) -> (r: Vec<String>)
    ensures
        texts(r@) == dirs_below(parent(file@), root@),
{
    let mut out: Vec<String> = Vec::new();
    let mut current = parent_of(file);
    let ghost all = dirs_below(parent(file@), root@);
    assert(texts(out@) + dirs_below(opt_text(current), root@) =~= all);
    loop
        invariant
            texts(out@) + dirs_below(opt_text(current), root@) == all,
        ensures
            texts(out@) == all,
        decreases
                match current {
                    Some(d) => d@.len() + 1,
                    None => 0,
                },
    {
        let dir = match current {
            Some(d) => d,
            None => {
                assert(texts(out@) + Seq::<Seq<char>>::empty() =~= texts(out@));
                break ;
            },
        };
        if !is_under(dir.as_str(), root) || is_same_path(dir.as_str(), root) {
            assert(texts(out@) + Seq::<Seq<char>>::empty() =~= texts(out@));
            break ;
        }
        let next = parent_of(dir.as_str());
        proof {
            parent_is_shorter(dir@);
        }
        let ghost was = texts(out@);
        let ghost d = dir@;
        out.push(dir);
        assert(texts(out@) =~= was.push(d));
        assert(was + (seq![d] + dirs_below(opt_text(next), root@)) =~= was.push(d) + dirs_below(
            opt_text(next),
            root@,
        ));
        current = next;
    }
    out
}

/// The instruction files that came along with what a part read, as long as its
/// output is still there.
pub open spec fn loaded_by(p: Part) -> Seq<Seq<char>> {
    match p.kind {
        PartKind::Tool {
            tool,
            state: ToolState::Completed { compacted: false, loaded: Some(v), .. },
        } => if tool@ == "read"@ {
            texts(v@)
        } else {
            Seq::empty()
        },
        _ => Seq::empty(),
    }
}

pub open spec fn loaded_in_parts(parts: Seq<Part>) -> Seq<Seq<char>>
    decreases parts.len(),
{
    if parts.len() == 0 {
        Seq::empty()
    } else {
        loaded_in_parts(parts.drop_last()) + loaded_by(parts.last())
    }
}

/// The instruction files that a history holds.
pub open spec fn loaded(msgs: Seq<MessageWithParts>) -> Seq<Seq<char>>
    decreases msgs.len(),
{
    if msgs.len() == 0 {
        Seq::empty()
    } else {
        loaded(msgs.drop_last()) + loaded_in_parts(msgs.last().parts@)
    }
}

fn add_loaded(out: &mut Vec<String>, p: &Part)
    ensures
        texts(final(out)@) == texts(old(out)@) + loaded_by(*p),
{
    let ghost was = texts(out@);
    if let PartKind::Tool { tool, state } = &p.kind {
        if let ToolState::Completed { compacted, loaded, .. } = state {
            if let Some(v) = loaded {
                if !*compacted && same(tool.as_str(), "read") {
                    let mut copy = crate::text::copy_texts(v);
                    out.append(&mut copy);
                    assert(texts(out@) =~= was + texts(v@));
                    return ;
                }
            }
        }
    }
    assert(was + Seq::<Seq<char>>::empty() =~= was);
}

pub fn loaded_paths(msgs: &Vec<MessageWithParts>) -> (r: Vec<String>)
    ensures
        texts(r@) == loaded(msgs@),
{
    let mut out: Vec<String> = Vec::new();
    let mut i: usize = 0;
    assert(texts(out@) =~= loaded(msgs@.take(0)));
    while i < msgs.len()
        invariant
            i <= msgs@.len(),
            texts(out@) == loaded(msgs@.take(i as int)),
        decreases msgs@.len() - i,
    {
        let parts = &msgs[i].parts;
        let ghost start = texts(out@);
        let mut j: usize = 0;
        assert(start =~= start + loaded_in_parts(parts@.take(0)));
        while j < parts.len()
            invariant
                j <= parts@.len(),
                texts(out@) == start + loaded_in_parts(parts@.take(j as int)),
            decreases parts@.len() - j,
        {
            assert(parts@.take(j + 1).drop_last() =~= parts@.take(j as int));
            add_loaded(&mut out, &parts[j]);
            j += 1;
            assert(texts(out@) =~= start + loaded_in_parts(parts@.take(j as int)));
        }
        assert(parts@.take(j as int) =~= parts@);
        assert(msgs@.take(i + 1).drop_last() =~= msgs@.take(i as int));
        i += 1;
    }
    assert(msgs@.take(i as int) =~= msgs@);
    out
}

/// Whether some path of a list is this path.
pub open spec fn lists_path(v: Seq<Seq<char>>, p: Seq<char>) -> bool {
    exists|i: int| 0 <= i < v.len() && same_path(#[trigger] v[i], p)
}

fn has_path(v: &Vec<String>, p: &str) -> (b: bool)
    ensures
        b == lists_path(texts(v@), p@),
{
    let mut i: usize = 0;
    while i < v.len()
        invariant
            i <= v@.len(),
            forall|k: int| 0 <= k < i ==> !same_path(#[trigger] texts(v@)[k], p@),
        decreases v@.len() - i,
    {
        assert(texts(v@)[i as int] == v@[i as int]@);
        if is_same_path(v[i].as_str(), p) {
            return true;
        }
        i += 1;
    }
    false
}

/// What is known when instruction files are looked for: the file that was read,
/// the instruction files that the system prompt has, and those that the history
/// has.
pub struct Nesting {
    pub file: String,
    pub system: Vec<String>,
    pub already: Vec<String>,
}

impl Nesting {
    /// Whether a file that was found is to be attached at all.
    pub open spec fn is_new(&self, found: Seq<char>) -> bool {
        &&& !same_path(found, self.file@)
        &&& !lists_path(texts(self.system@), found)
        &&& !texts(self.already@).contains(found)
    }
}

/// The files to attach among the first ones that were found: those that are new
/// and that the message has not claimed. With the set of what it has claimed.
pub open spec fn taken(
    n: Nesting,
    found: Seq<Option<Seq<char>>>,
    claims: Set<Seq<Seq<char>>>,
) -> (Seq<Seq<char>>, Set<Seq<Seq<char>>>)
    decreases found.len(),
{
    if found.len() == 0 {
        (Seq::empty(), claims)
    } else {
        let (out, now) = taken(n, found.drop_last(), claims);
        match found.last() {
            Some(f) => if !n.is_new(f) {
                (out, now)
            } else if now.contains(components(f)) {
                (out, now)
            } else {
                (out.push(f), now.insert(components(f)))
            },
            None => (out, now),
        }
    }
}

/// What is attached was found, is new, and was not claimed; from then on it is,
/// so that it is never attached twice to one message.
pub proof fn attached_once(
    n: Nesting,
    found: Seq<Option<Seq<char>>>,
    again: Seq<Option<Seq<char>>>,
    claims: Set<Seq<Seq<char>>>,
)
    ensures
        ({
            let (out, now) = taken(n, found, claims);
            let (more, _) = taken(n, again, now);
            &&& forall|i: int|
                0 <= i < out.len() ==> n.is_new(#[trigger] out[i]) && found.contains(Some(out[i]))
                    && !claims.contains(components(out[i])) && now.contains(components(out[i]))
            &&& forall|i: int, j: int|
                0 <= i < j < out.len() ==> !same_path(#[trigger] out[i], #[trigger] out[j])
            &&& forall|i: int, j: int|
                0 <= i < out.len() && 0 <= j < more.len() ==> !same_path(
                    #[trigger] out[i],
                    #[trigger] more[j],
                )
        }),
{
    lemma_taken(n, found, claims);
    let (out, now) = taken(n, found, claims);
    lemma_taken(n, again, now);
    let (more, last) = taken(n, again, now);
    assert forall|i: int, j: int| 0 <= i < out.len() && 0 <= j < more.len() implies !same_path(
        #[trigger] out[i],
        #[trigger] more[j],
    ) by {
        assert(now.contains(components(out[i])));
        assert(!now.contains(components(more[j])));
    }
}

proof fn lemma_taken(n: Nesting, found: Seq<Option<Seq<char>>>, claims: Set<Seq<Seq<char>>>)
    ensures
        ({
            let (out, now) = taken(n, found, claims);
            &&& forall|c: Seq<Seq<char>>| #[trigger] claims.contains(c) ==> now.contains(c)
            &&& forall|i: int|
                0 <= i < out.len() ==> n.is_new(#[trigger] out[i]) && found.contains(Some(out[i]))
                    && !claims.contains(components(out[i])) && now.contains(components(out[i]))
            &&& forall|i: int, j: int|
                0 <= i < j < out.len() ==> !same_path(#[trigger] out[i], #[trigger] out[j])
        }),
    decreases found.len(),
{
    if found.len() > 0 {
        let f = found.drop_last();
        lemma_taken(n, f, claims);
        let (out0, now0) = taken(n, f, claims);
        let (out, now) = taken(n, found, claims);
        assert forall|i: int| 0 <= i < out.len() implies n.is_new(#[trigger] out[i])
            && found.contains(Some(out[i])) && !claims.contains(components(out[i]))
            && now.contains(components(out[i])) by {
            if i < out0.len() {
                assert(out[i] == out0[i]);
                assert(f.contains(Some(out0[i])));
                let k = choose|k: int| 0 <= k < f.len() && f[k] == Some(out0[i]);
                assert(found[k] == Some(out[i]));
            } else {
                assert(found[found.len() - 1] == Some(out[i]));
                if claims.contains(components(out[i])) {
                    assert(now0.contains(components(out[i])));
                }
            }
        }
        assert forall|i: int, j: int| 0 <= i < j < out.len() implies !same_path(
            #[trigger] out[i],
            #[trigger] out[j],
        ) by {
            assert(out[i] == out0[i]);
            if j < out0.len() {
                assert(out[j] == out0[j]);
            } else {
                assert(now0.contains(components(out0[i])));
                assert(!now0.contains(components(out[j])));
            }
        }
    }
}

pub open spec fn found_texts(v: Seq<Option<String>>) -> Seq<Option<Seq<char>>> {
    Seq::new(v.len(), |i: int| opt_text(v[i]))
}

/// Claims the instruction files that were found beside a file, one for each
/// directory that has one, and gives those that are to be read and attached.
pub fn claim_nested(
    claims: &mut Claims,
    n: &Nesting,
    found: &Vec<Option<String>>,
    message_id: &str,
) -> (r: Vec<String>)
    ensures
        ({
            let (out, now) = taken(*n, found_texts(found@), claimed(old(claims)@, message_id@));
            &&& texts(r@) == out
            &&& claimed(final(claims)@, message_id@) == now
        }),
        forall|m: Seq<char>|
            m != message_id@ ==> #[trigger] claimed(final(claims)@, m) == claimed(old(claims)@, m),
{
    let ghost f = found_texts(found@);
    let ghost start = claimed(claims@, message_id@);
    let ghost was = claims@;
    let mut out: Vec<String> = Vec::new();
    let mut i: usize = 0;
    assert(texts(out@) =~= taken(*n, f.take(0), start).0);
    while i < found.len()
        invariant
            i <= found@.len(),
            f == found_texts(found@),
            was == old(claims)@,
            start == claimed(was, message_id@),
            texts(out@) == taken(*n, f.take(i as int), start).0,
            claimed(claims@, message_id@) == taken(*n, f.take(i as int), start).1,
            forall|m: Seq<char>|
                m != message_id@ ==> #[trigger] claimed(claims@, m) == claimed(was, m),
        decreases found@.len() - i,
    {
        assert(f.take(i + 1).drop_last() =~= f.take(i as int));
        assert(f.take(i + 1).last() == f[i as int]);
        if let Some(p) = &found[i] {
            let p = p.as_str();
            if !is_same_path(p, n.file.as_str()) && !has_path(&n.system, p) && !has_text(
                &n.already,
                p,
            ) {
                let ghost before = claims@;
                let ghost had = texts(out@);
                if claims.claim(message_id, p) {
                    out.push(p.to_owned());
                    assert(texts(out@) =~= had.push(p@));
                } else {
                    assert(claimed(before, message_id@).insert(components(p@)) =~= claimed(
                        before,
                        message_id@,
                    ));
                }
                assert forall|m: Seq<char>| m != message_id@ implies #[trigger] claimed(claims@, m)
                    == claimed(was, m) by {
                    assert(claimed(before, m) == claimed(was, m));
                }
            }
        }
        i += 1;
    }
    assert(f.take(i as int) =~= f);
    out
}

/// What is attached of an instruction file that was read: nothing where it is
/// blank.
pub fn attached(path: &str, content: &str) -> (r: Option<String>)
    ensures
        opt_text(r) == (if trim(content@).len() == 0 {
            None
        } else {
            Some("Instructions from: "@ + path@ + "\n"@ + content@)
        }),
{
    if trimmed(content).as_str().unicode_len() == 0 {
        return None;
    }
    let mut s = "Instructions from: ".to_owned();
    s.append(path);
    s.append("\n");
    s.append(content);
    Some(s)
}

// ───────────────────────────── MCP ─────────────────────────────

/// The instructions of an MCP server, with the names of its tools.
#[derive(Debug)]
pub struct ServerText {
    pub name: String,
    pub text: String,
    pub tools: Vec<String>,
}

/// Whether a tool may be used at all.
pub open spec fn allowed(rs: Ruleset, tool: Seq<char>) -> bool {
    verdict(rules(rs@), tool, "*"@) != Some(Action::Deny)
}

/// Whether a server's instructions are of use: it has no tools, or some tool of
/// it may be used.
pub open spec fn serves(s: ServerText, rs: Ruleset) -> bool {
    s.tools@.len() == 0 || exists|i: int|
        0 <= i < s.tools@.len() && #[trigger] allowed(rs, s.tools@[i]@)
}

fn is_serving(s: &ServerText, rs: &Ruleset) -> (b: bool)
    ensures
        b == serves(*s, *rs),
{
    if s.tools.len() == 0 {
        return true;
    }
    let mut i: usize = 0;
    while i < s.tools.len()
        invariant
            i <= s.tools@.len(),
            forall|k: int| 0 <= k < i ==> !#[trigger] allowed(*rs, s.tools@[k]@),
        decreases s.tools@.len() - i,
    {
        let denied = match evaluate(s.tools[i].as_str(), "*", rs) {
            Some(Action::Deny) => true,
            _ => false,
        };
        if !denied {
            assert(allowed(*rs, s.tools@[i as int]@));
            return true;
        }
        i += 1;
    }
    false
}

/// A server's instructions, indented within its tag.
pub open spec fn server_lines(s: ServerText) -> Seq<Seq<char>> {
    let l = lines(s.text@);
    seq!["  <server name=\""@ + s.name@ + "\">"@] + Seq::new(
        l.len(),
        |i: int| "    "@ + l[i],
    ) + seq!["  </server>"@]
}

/// The lines on all servers that are of use.
pub open spec fn servers_lines(v: Seq<ServerText>, rs: Ruleset) -> Seq<Seq<char>>
    decreases v.len(),
{
    if v.len() == 0 {
        Seq::empty()
    } else if serves(v.last(), rs) {
        servers_lines(v.drop_last(), rs) + server_lines(v.last())
    } else {
        servers_lines(v.drop_last(), rs)
    }
}

fn add_server(out: &mut Vec<String>, s: &ServerText)
    ensures
        texts(final(out)@) == texts(old(out)@) + server_lines(*s),
{
    let ghost start = texts(out@);
    let mut head = "  <server name=\"".to_owned();
    head.append(s.name.as_str());
    head.append("\">");
    out.push(head);
    let l = lines_of(s.text.as_str());
    let ghost lv = lines(s.text@);
    let ghost all = server_lines(*s);
    assert(texts(l@).len() == l@.len());
    assert(texts(out@) =~= start + all.take(1));
    let mut i: usize = 0;
    while i < l.len()
        invariant
            i <= l@.len(),
            texts(l@) == lv,
            lv == lines(s.text@),
            all == server_lines(*s),
            all.len() == l@.len() + 2,
            texts(out@) == start + all.take(i + 1),
        decreases l@.len() - i,
    {
        let mut t = "    ".to_owned();
        t.append(l[i].as_str());
        assert(lv[i as int] == l@[i as int]@);
        let ghost was = texts(out@);
        assert(t@ == all[i + 1]);
        out.push(t);
        assert(texts(out@) =~= was.push(all[i + 1]));
        assert(all.take(i + 2) =~= all.take(i + 1).push(all[i + 1]));
        i += 1;
        assert(texts(out@) =~= start + all.take(i + 1));
    }
    let ghost was = texts(out@);
    out.push("  </server>".to_owned());
    assert(texts(out@) =~= was.push("  </server>"@));
    assert(all.take(i + 1).push("  </server>"@) =~= all);
    assert(texts(out@) =~= start + all);
}

/// What the system prompt says of the MCP servers: the instructions of those
/// that are of use under the rules.
pub fn mcp_instructions(servers: &Vec<ServerText>, ruleset: &Ruleset) -> (r: Option<String>)
    ensures
        opt_text(r) == (if exists|i: int|
            0 <= i < servers@.len() && serves(#[trigger] servers@[i], *ruleset) {
            Some(
                join(
                    seq!["<mcp_instructions>"@] + servers_lines(servers@, *ruleset)
                        + seq!["</mcp_instructions>"@],
                    "\n"@,
                ),
            )
        } else {
            None
        }),
{
    let mut out: Vec<String> = Vec::new();
    out.push("<mcp_instructions>".to_owned());
    let ghost head = seq!["<mcp_instructions>"@];
    let mut any = false;
    let mut i: usize = 0;
    assert(texts(out@) =~= head + servers_lines(servers@.take(0), *ruleset));
    while i < servers.len()
        invariant
            i <= servers@.len(),
            any == exists|k: int| 0 <= k < i && serves(#[trigger] servers@[k], *ruleset),
            texts(out@) == head + servers_lines(servers@.take(i as int), *ruleset),
        decreases servers@.len() - i,
    {
        assert(servers@.take(i + 1).drop_last() =~= servers@.take(i as int));
        if is_serving(&servers[i], ruleset) {
            any = true;
            add_server(&mut out, &servers[i]);
            assert(serves(servers@[i as int], *ruleset));
        }
        i += 1;
        assert(texts(out@) =~= head + servers_lines(servers@.take(i as int), *ruleset));
    }
    assert(servers@.take(i as int) =~= servers@);
    if !any {
        return None;
    }
    let ghost was = texts(out@);
    out.push("</mcp_instructions>".to_owned());
    assert(texts(out@) =~= head + servers_lines(servers@, *ruleset) + seq!["</mcp_instructions>"@]);
    Some(joined(&out, "\n"))
}

/// What the system prompt says of skills. `listing` is the list of the skills
/// that the agent may use, where there are any.
pub fn skills_prompt(permission: &Ruleset, listing: Option<&str>) -> (r: Option<String>)
    ensures
        opt_text(r) == (match listing {
            Some(l) => if allowed(*permission, "skill"@) {
                Some(
                    "Skills provide specialized instructions and workflows for specific tasks.\nUse the skill tool to load a skill when a task matches its description.\n"@
                        + l@,
                )
            } else {
                None
            },
            None => None,
        }),
{
    if let Some(Action::Deny) = evaluate("skill", "*", permission) {
        return None;
    }
    match listing {
        Some(l) => {
            let mut s =
                "Skills provide specialized instructions and workflows for specific tasks.\nUse the skill tool to load a skill when a task matches its description.\n".to_owned();
            s.append(l);
            Some(s)
        },
        None => None,
    }
}

/// A slash command.
#[derive(Debug)]
pub struct Command {
    pub name: String,
    pub description: Option<String>,
    pub template: String,
    pub source: String,
}

pub struct CommandView {
    pub name: Seq<char>,
    pub description: Option<Seq<char>>,
    pub template: Seq<char>,
    pub source: Seq<char>,
}

impl View for Command {
    type V = CommandView;

    open spec fn view(&self) -> CommandView {
        CommandView {
            name: self.name@,
            description: opt_text(self.description),
            template: self.template@,
            source: self.source@,
        }
    }
}

/// The values that a prompt's arguments stand for in a template: `$1`, `$2` and
/// so on. Of an argument that is named twice the later one counts.
pub open spec fn arg_map(args: Seq<Seq<char>>) -> Map<Seq<char>, Seq<char>>
    decreases args.len(),
{
    if args.len() == 0 {
        Map::empty()
    } else {
        arg_map(args.drop_last()).insert(args.last(), "$"@ + decimal(args.len()))
    }
}

pub fn prompt_args(args: &Vec<String>) -> (m: Table<String>)
    ensures
        m@ == arg_map(texts(args@)),
{
    let ghost a = texts(args@);
    let mut m: Table<String> = Table::new();
    let mut i: usize = 0;
    while i < args.len()
        invariant
            i <= args@.len(),
            a == texts(args@),
            m@ == arg_map(a.take(i as int)),
        decreases args@.len() - i,
    {
        let mut s = "$".to_owned();
        s.append(decimal_of(i as u64 + 1).as_str());
        assert(a.take(i + 1).drop_last() =~= a.take(i as int));
        m.insert(args[i].clone(), s);
        i += 1;
    }
    assert(a.take(i as int) =~= a);
    m
}

/// Whether a prompt of an MCP server is to be fetched: no command has its name.
pub fn wants_prompt(commands: &Table<Command>, name: &str) -> (b: bool)
    ensures
        b == !commands@.contains_key(name@),
{
    !commands.contains_key(name)
}

/// Adds a prompt of an MCP server as a slash command, unless there is one of its
/// name. `template` is what the server gave, if it gave anything.
pub fn add_prompt(
    commands: &mut Table<Command>,
    name: String,
    description: Option<String>,
    template: Option<String>,
)
    ensures
        final(commands)@ == (if old(commands)@.contains_key(name@) {
            old(commands)@
        } else {
            old(commands)@.insert(
                name@,
                CommandView {
                    name: name@,
                    description: opt_text(description),
                    template: match template {
                        Some(t) => t@,
                        None => Seq::empty(),
                    },
                    source: "mcp"@,
                },
            )
        }),
{
    if commands.contains_key(name.as_str()) {
        return ;
    }
    let template = match template {
        Some(t) => t,
        None => String::new(),
    };
    let c = Command { name: name.clone(), description, template, source: "mcp".to_owned() };
    commands.insert(name, c);
}

} // verus!
