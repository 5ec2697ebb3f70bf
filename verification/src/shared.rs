//! Maps that several tasks share: the sessions that run, and the instruction
//! files that replies have claimed.

use crate::text::texts;
use dashmap::DashMap;
use std::collections::HashSet;
use vstd::prelude::*;

verus! {

/// `dashmap::DashMap`: a map that several tasks may use at once.
#[verifier::external_type_specification]
#[verifier::external_body]
#[verifier::reject_recursive_types(K)]
#[verifier::reject_recursive_types(V)]
#[verifier::reject_recursive_types(S)]
pub struct ExDashMap<K, V, S>(dashmap::DashMap<K, V, S>);

/// What a map from texts to numbers holds.
pub uninterp spec fn numbers(m: DashMap<String, u64>) -> Map<Seq<char>, u64>;

/// `DashMap::new`: the map holds nothing.
#[verifier::external_body]
pub(crate) fn new_numbers() -> (m: DashMap<String, u64>)
    ensures
        numbers(m) =~= Map::empty(),
{
    DashMap::new()
}

/// `DashMap::get`: a copy of the number under a key, if there is one.
#[verifier::external_body]
pub(crate) fn number_at(m: &DashMap<String, u64>, key: &str) -> (r: Option<u64>)
    ensures
        r == (if numbers(*m).contains_key(key@) {
            Some(numbers(*m)[key@])
        } else {
            None
        }),
{
    m.get(key).map(|n| *n)
}

/// `DashMap::insert`: puts a number under a key, over the one that was there.
#[verifier::external_body]
pub(crate) fn put_number(m: &mut DashMap<String, u64>, key: String, n: u64)
    ensures
        numbers(*final(m)) == numbers(*old(m)).insert(key@, n),
{
    m.insert(key, n);
}

/// `DashMap::remove`: takes a key out, if it is there.
#[verifier::external_body]
pub(crate) fn drop_number(m: &mut DashMap<String, u64>, key: &str)
    ensures
        numbers(*final(m)) == numbers(*old(m)).remove(key@),
{
    m.remove(key);
}

/// What a map from texts to sets of lists of texts holds.
pub uninterp spec fn lists(m: DashMap<String, HashSet<Vec<String>>>) -> Map<
    Seq<char>,
    Set<Seq<Seq<char>>>,
>;

/// The set under a key; empty where there is none.
pub open spec fn set_at(m: Map<Seq<char>, Set<Seq<Seq<char>>>>, key: Seq<char>) -> Set<Seq<Seq<char>>> {
    if m.contains_key(key) {
        m[key]
    } else {
        Set::empty()
    }
}

/// `DashMap::new`: the map holds nothing.
#[verifier::external_body]
pub(crate) fn new_lists() -> (m: DashMap<String, HashSet<Vec<String>>>)
    ensures
        lists(m) =~= Map::empty(),
{
    DashMap::new()
}

/// `DashMap::entry` with `or_default`, and `insert` on the set behind it: puts a
/// list into the set under a key, which starts out empty, and tells whether it
/// is new there.
#[verifier::external_body]
pub(crate) fn add_list(m: &mut DashMap<String, HashSet<Vec<String>>>, key: String, list: Vec<String>) -> (new:
    bool)
    ensures
        new == !set_at(lists(*old(m)), key@).contains(texts(list@)),
        lists(*final(m)) == lists(*old(m)).insert(
            key@,
            set_at(lists(*old(m)), key@).insert(texts(list@)),
        ),
{
    m.entry(key).or_default().insert(list)
}

/// `DashMap::remove`: takes a key out, if it is there.
#[verifier::external_body]
pub(crate) fn drop_lists(m: &mut DashMap<String, HashSet<Vec<String>>>, key: &str)
    ensures
        lists(*final(m)) == lists(*old(m)).remove(key@),
{
    m.remove(key);
}

// ───────────────────────────── running sessions ─────────────────────────────

/// The sessions whose loop runs, each with the number of its run. The caller
/// keeps the handles of the runs under these numbers.
pub struct SessionRunner {
    running: DashMap<String, u64>,
}

impl View for SessionRunner {
    type V = Map<Seq<char>, u64>;

    closed spec fn view(&self) -> Map<Seq<char>, u64> {
        numbers(self.running)
    }
}

/// The running sessions once one was asked to run: it joins unless it runs.
pub open spec fn ensured(m: Map<Seq<char>, u64>, session: Seq<char>, run: u64) -> Map<Seq<char>, u64> {
    if m.contains_key(session) {
        m
    } else {
        m.insert(session, run)
    }
}

/// A session runs at most once at a time: asked again it keeps its run, and no
/// other session is touched. When the run is over it may start anew.
pub proof fn sessions_run_once(
    m: Map<Seq<char>, u64>,
    session: Seq<char>,
    run: u64,
    again: u64,
    other: Seq<char>,
)
    ensures
        ensured(m, session, run).contains_key(session),
        ensured(ensured(m, session, run), session, again) == ensured(m, session, run),
        other != session ==> (ensured(m, session, run).contains_key(other) == m.contains_key(other)),
        other != session && m.contains_key(other) ==> ensured(m, session, run)[other] == m[other],
        !ensured(m, session, run).remove(session).contains_key(session),
        ensured(ensured(m, session, run).remove(session), session, again)[session] == again,
{
}

impl Default for SessionRunner {
    fn default() -> (r: Self)
        ensures
            r@ == Map::<Seq<char>, u64>::empty(),
    {
        SessionRunner { running: new_numbers() }
    }
}

impl SessionRunner {
    pub fn is_running(&self, session_id: &str) -> (b: bool)
        ensures
            b == self@.contains_key(session_id@),
    {
        number_at(&self.running, session_id).is_some()
    }

    /// The run to cancel or to wait for.
    pub fn run_of(&self, session_id: &str) -> (r: Option<u64>)
        ensures
            r == (if self@.contains_key(session_id@) {
                Some(self@[session_id@])
            } else {
                None
            }),
    {
        number_at(&self.running, session_id)
    }

    /// Enters a run for a session unless it runs. The caller starts the loop
    /// where this returns true.
    pub fn ensure_running(&mut self, session_id: String, run: u64) -> (starts: bool)
        ensures
            starts == !old(self)@.contains_key(session_id@),
            final(self)@ == ensured(old(self)@, session_id@, run),
    {
        if self.is_running(session_id.as_str()) {
            return false;
        }
        put_number(&mut self.running, session_id, run);
        true
    }

    /// Leaves the run of a session, when its loop is over.
    pub fn finish(&mut self, session_id: &str)
        ensures
            final(self)@ == old(self)@.remove(session_id@),
    {
        drop_number(&mut self.running, session_id);
    }
}

// ───────────────────────────── claims ─────────────────────────────

/// Instruction files that were attached already, for each assistant message.
pub struct Claims {
    claims: DashMap<String, HashSet<Vec<String>>>,
}

impl View for Claims {
    type V = Map<Seq<char>, Set<Seq<Seq<char>>>>;

    closed spec fn view(&self) -> Map<Seq<char>, Set<Seq<Seq<char>>>> {
        lists(self.claims)
    }
}

/// The files, by the components of their paths, that a message has claimed.
pub open spec fn claimed(m: Map<Seq<char>, Set<Seq<Seq<char>>>>, message: Seq<char>) -> Set<
    Seq<Seq<char>>,
> {
    set_at(m, message)
}

impl Claims {
    pub fn new() -> (c: Self)
        ensures
            c@ == Map::<Seq<char>, Set<Seq<Seq<char>>>>::empty(),
    {
        Claims { claims: new_lists() }
    }

    /// Claims a file for a message. True where the message had not claimed it.
    pub fn claim(&mut self, message_id: &str, path: &str) -> (new: bool)
        ensures
            new == !claimed(old(self)@, message_id@).contains(crate::path::components(path@)),
            final(self)@ == old(self)@.insert(
                message_id@,
                claimed(old(self)@, message_id@).insert(crate::path::components(path@)),
            ),
    {
        add_list(&mut self.claims, message_id.to_owned(), crate::path::components_of(path))
    }

    pub fn clear_instruction_claims(&mut self, message_id: &str)
        ensures
            final(self)@ == old(self)@.remove(message_id@),
    {
        drop_lists(&mut self.claims, message_id);
    }
}

} // verus!
