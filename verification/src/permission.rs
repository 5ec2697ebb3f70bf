//! Permission rules. Ordered list; evaluation is "last matching rule wins".

use crate::wildcard::{parsed, regex_verdict, slashed, written};
use vstd::prelude::*;

verus! {

#[derive(Debug, Clone, Copy, PartialEq, Eq, Hash, Structural)]
pub enum Action {
    Allow,
    Deny,
    Ask,
}

#[derive(Debug, PartialEq, Eq, Hash)]
pub struct Rule {
    pub permission: String,
    pub pattern: String,
    pub action: Action,
}

pub struct RuleView {
    pub permission: Seq<char>,
    pub pattern: Seq<char>,
    pub action: Action,
}

impl View for Rule {
    type V = RuleView;

    open spec fn view(&self) -> RuleView {
        RuleView { permission: self.permission@, pattern: self.pattern@, action: self.action }
    }
}

impl Clone for Rule {
    fn clone(&self) -> (r: Self)
        ensures
            r@ == self@,
    {
        Rule {
            permission: self.permission.clone(),
            pattern: self.pattern.clone(),
            action: self.action,
        }
    }
}

impl Rule {
    pub fn new(permission: &str, pattern: &str, action: Action) -> (r: Self)
        ensures
            r@ == (RuleView { permission: permission@, pattern: pattern@, action }),
    {
        Rule { permission: permission.to_owned(), pattern: pattern.to_owned(), action }
    }
}

pub type Ruleset = Vec<Rule>;

pub open spec fn rules(v: Seq<Rule>) -> Seq<RuleView> {
    Seq::new(v.len(), |i: int| v[i]@)
}

/// Whether the wildcard `pattern` covers `input`.
pub open spec fn covers(input: Seq<char>, pattern: Seq<char>) -> bool {
    match regex_verdict(written(parsed(pattern).0, parsed(pattern).1), slashed(input)) {
        Some(found) => found,
        None => input.len() == 0,
    }
}

pub open spec fn applies(r: RuleView, permission: Seq<char>, subject: Seq<char>) -> bool {
    covers(permission, r.permission) && covers(subject, r.pattern)
}

/// What the last rule that applies says, if one applies.
pub open spec fn verdict(rs: Seq<RuleView>, permission: Seq<char>, subject: Seq<char>) -> Option<Action>
    decreases rs.len(),
{
    if rs.len() == 0 {
        None
    } else if applies(rs.last(), permission, subject) {
        Some(rs.last().action)
    } else {
        verdict(rs.drop_last(), permission, subject)
    }
}

/// The action of the last rule of `set` that covers both `permission` and
/// `subject`.
pub fn evaluate(permission: &str, subject: &str, set: &Ruleset) -> (r: Option<Action>)
    ensures
        r == verdict(rules(set@), permission@, subject@),
{
    let ghost rs = rules(set@);
    let mut i: usize = set.len();
    assert(rs.take(i as int) =~= rs);
    while i > 0
        invariant
            i <= set@.len(),
            rs == rules(set@),
            verdict(rs, permission@, subject@) == verdict(
                rs.take(i as int),
                permission@,
                subject@,
            ),
        decreases i,
    {
        let rule = &set[i - 1];
        assert(rs.take(i as int).last() == rule@);
        assert(rs.take(i as int).drop_last() =~= rs.take(i - 1));
        if crate::wildcard::matches(permission, rule.permission.as_str()) && crate::wildcard::matches(
            subject,
            rule.pattern.as_str(),
        ) {
            return Some(rule.action);
        }
        i -= 1;
    }
    None
}

/// A copy of a list of rules.
pub fn copy_rules(v: &Ruleset) -> (r: Ruleset)
    ensures
        rules(r@) == rules(v@),
{
    let mut r: Ruleset = Vec::new();
    let mut i: usize = 0;
    while i < v.len()
        invariant
            i <= v@.len(),
            r@.len() == i,
            forall|k: int| 0 <= k < i ==> (#[trigger] r@[k])@ == v@[k]@,
        decreases v@.len() - i,
    {
        r.push(v[i].clone());
        i += 1;
    }
    assert(rules(r@) =~= rules(v@));
    r
}

/// `base` with the rules of `extra` behind its own.
pub fn merged(base: &Ruleset, extra: &Ruleset) -> (r: Ruleset)
    ensures
        rules(r@) == rules(base@) + rules(extra@),
{
    let mut r = copy_rules(base);
    let mut i: usize = 0;
    assert(rules(extra@).take(0) =~= Seq::empty());
    assert(rules(base@) + Seq::<RuleView>::empty() =~= rules(base@));
    while i < extra.len()
        invariant
            i <= extra@.len(),
            rules(r@) == rules(base@) + rules(extra@).take(i as int),
        decreases extra@.len() - i,
    {
        let ghost was = rules(r@);
        r.push(extra[i].clone());
        assert(rules(r@) =~= was.push(extra@[i as int]@));
        assert(rules(extra@).take(i + 1) =~= rules(extra@).take(i as int).push(
            extra@[i as int]@,
        ));
        i += 1;
        assert(rules(r@) =~= rules(base@) + rules(extra@).take(i as int));
    }
    assert(rules(extra@).take(extra@.len() as int) =~= rules(extra@));
    r
}

/// The last rule that applies decides, whatever stands before it.
pub proof fn last_matching_rule_wins(
    rs: Seq<RuleView>,
    i: int,
    permission: Seq<char>,
    subject: Seq<char>,
)
    requires
        0 <= i < rs.len(),
        applies(rs[i], permission, subject),
        forall|j: int| i < j < rs.len() ==> !applies(#[trigger] rs[j], permission, subject),
    ensures
        verdict(rs, permission, subject) == Some(rs[i].action),
    decreases rs.len(),
{
    if i < rs.len() - 1 {
        let d = rs.drop_last();
        assert(!applies(rs[rs.len() - 1], permission, subject));
        assert(forall|j: int| 0 <= j < d.len() ==> d[j] == rs[j]);
        last_matching_rule_wins(d, i, permission, subject);
    }
}

/// Rules that are appended come before those that were there: they decide where
/// one of them applies, and change nothing where none does.
pub proof fn appended_rules_decide(
    base: Seq<RuleView>,
    extra: Seq<RuleView>,
    permission: Seq<char>,
    subject: Seq<char>,
)
    ensures
        verdict(base + extra, permission, subject) == (match verdict(extra, permission, subject) {
            Some(a) => Some(a),
            None => verdict(base, permission, subject),
        }),
    decreases extra.len(),
{
    let all = base + extra;
    if extra.len() == 0 {
        assert(all =~= base);
    } else {
        assert(all.last() == extra.last());
        assert(all.drop_last() =~= base + extra.drop_last());
        appended_rules_decide(base, extra.drop_last(), permission, subject);
    }
}

} // verus!
