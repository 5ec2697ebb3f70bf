//! Session titles, made from the first exchange by a small model.

use crate::provider::{Model, Registry, Strategy};
use crate::router::{candidates, picked, Need, NeedView, Router};
use crate::session::{
    agent_at, all_user_texts, all_user_texts_of, find_agent, Agent, MessageWithParts, ModelRef, SessionInfo,
};
use crate::text::{
    clip, clipped, first_line, first_line_of, has_prefix, join, joined, opt_text, starts_with, strip_all_prefix,
    strip_all_suffix, texts, trim, trimmed, without_prefixes, without_suffixes,
};
use vstd::prelude::*;

verus! {

/// Only a session of its own that still has its first title gets one.
pub open spec fn is_untitled(s: SessionInfo) -> bool {
    s.parent_id is None && starts_with(s.title@, "New session"@)
}

/// How title generation goes on.
pub enum TitleStart {
    /// there is nothing to do
    Skip,
    /// it fails, with this message
    Fail(String),
    /// the agent at this place makes the title, on a small model chosen for this one
    Go { agent: usize, base: Model },
}

pub fn start_title(session: &SessionInfo, agents: &Vec<Agent>, registry: &Registry, named: &ModelRef) -> (r:
    TitleStart)
    ensures
        ({
            let at = agent_at(agents@, "title"@);
            let found = registry.found(named.provider_id@, named.model_id@);
            match r {
                TitleStart::Skip => !is_untitled(*session) || at is None,
                TitleStart::Fail(why) => is_untitled(*session) && at is Some && found is None && why@
                    == "model not found"@,
                TitleStart::Go { agent, base } => is_untitled(*session) && at == Some(agent as int)
                    && agent < agents@.len() && found == Some(base@),
            }
        }),
{
    if session.parent_id.is_some() || !has_prefix(session.title.as_str(), "New session") {
        return TitleStart::Skip;
    }
    match find_agent(agents, "title") {
        None => TitleStart::Skip,
        Some(agent) => match registry.get(named.provider_id.as_str(), named.model_id.as_str()) {
            Some(m) => TitleStart::Go { agent, base: m.clone() },
            None => TitleStart::Fail("model not found".to_owned()),
        },
    }
}

/// What a title asks of a model: nothing.
pub open spec fn title_need() -> NeedView {
    NeedView { tools: false, vision: false, tokens: 0, user_text: Seq::empty() }
}

/// The model that makes the title: `small` itself, or the fastest of the pool
/// where `small` is virtual.
pub fn title_model(
    router: &mut Router,
    registry: &Registry,
    small: Model,
    is_virtual: bool,
    now: u64,
    scores: &Vec<i64>,
) -> (r: Result<Model, String>)
    requires
        is_virtual ==> scores@.len() == candidates(registry@, title_need(), Seq::empty()).len(),
    ensures
        if is_virtual {
            let (after, pick) = picked(
                old(router)@,
                candidates(registry@, title_need(), Seq::empty()),
                Strategy::Fast,
                title_need(),
                "title"@,
                0,
                now as int,
                scores@,
            );
            &&& final(router)@ == after
            &&& match r {
                Ok(m) => pick matches Some(p) && m@ == p.0,
                Err(why) => pick is None && why@ == "no free model available for title"@,
            }
        } else {
            final(router)@ == old(router)@ && r == Ok::<Model, String>(small)
        },
{
    if !is_virtual {
        return Ok(small);
    }
    let need = Need { tools: false, vision: false, tokens: 0, user_text: String::new() };
    let none: Vec<String> = Vec::new();
    assert(texts(none@) =~= Seq::empty());
    assert(need@ == title_need());
    match router.pick(registry, Strategy::Fast, &need, "title", &none, 0, now, scores) {
        Some(p) => Ok(p.model),
        None => Err("no free model available for title".to_owned()),
    }
}

/// What the title is made from: the first 4000 characters of what the user
/// wrote, unless that is blank.
pub open spec fn title_source(history: Seq<MessageWithParts>) -> Option<Seq<char>> {
    let text = join(all_user_texts(history), "\n"@);
    if trim(text).len() == 0 {
        None
    } else {
        Some(clip(text, 4000))
    }
}

pub fn title_source_of(history: &Vec<MessageWithParts>) -> (r: Option<String>)
    ensures
        opt_text(r) == title_source(history@),
{
    let all = all_user_texts_of(history);
    let text = joined(&all, "\n");
    if trimmed(text.as_str()).as_str().is_empty() {
        None
    } else {
        Some(clipped(text.as_str(), 4000))
    }
}

/// The title in a model's answer: its first line, without the word for it,
/// quotes and blanks around it, cut to a hundred characters.
pub open spec fn title_in(answer: Seq<char>) -> Option<Seq<char>> {
    let bare = trim(strip_all_prefix(trim(answer), "Title:"@));
    let plain = strip_all_suffix(strip_all_prefix(bare, "\""@), "\""@);
    let line = trim(first_line(plain));
    if line.len() == 0 {
        None
    } else {
        Some(clip(line, 100))
    }
}

/// A title is never empty, and at most a hundred characters long.
pub proof fn titles_are_short(answer: Seq<char>)
    ensures
        title_in(answer) matches Some(t) ==> 0 < t.len() <= 100,
{
}

pub fn clean_title(answer: &str) -> (r: Option<String>)
    ensures
        opt_text(r) == title_in(answer@),
{
    let a = trimmed(answer);
    let b = without_prefixes(a.as_str(), "Title:");
    let c = trimmed(b.as_str());
    let d = without_prefixes(c.as_str(), "\"");
    let e = without_suffixes(d.as_str(), "\"");
    let f = first_line_of(e.as_str());
    let line = trimmed(f.as_str());
    if line.as_str().is_empty() {
        None
    } else {
        Some(clipped(line.as_str(), 100))
    }
}

} // verus!
