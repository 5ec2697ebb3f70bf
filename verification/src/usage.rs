//! Usage windows: what a model was asked lately, and its cooldown.

use std::collections::VecDeque;
use vstd::prelude::*;

verus! {

pub const MINUTE: u64 = 60_000;

pub const DAY: u64 = 86_400_000;

/// What is known of one model's use. Times are in milliseconds.
pub struct Usage {
    /// when requests were made, over the last day
    pub reqs: VecDeque<u64>,
    /// when tokens were used and how many, over the last day
    pub toks: VecDeque<(u64, u64)>,
    /// the model is left alone until then
    pub cooldown_until: u64,
    /// consecutive failures
    pub failures: u32,
    pub last_error: String,
    /// measured time to the first token in ms, as the bits of a double; 0 where
    /// nothing was measured
    pub ttft_bits: u64,
    /// measured output tokens per second, as the bits of a double; 0 where
    /// nothing was measured
    pub tps_bits: u64,
}

#[verifier::ext_equal]
pub struct UsageView {
    pub reqs: Seq<u64>,
    pub toks: Seq<(u64, u64)>,
    pub cooldown_until: u64,
    pub failures: u32,
    pub last_error: Seq<char>,
    pub ttft_bits: u64,
    pub tps_bits: u64,
}

impl View for Usage {
    type V = UsageView;

    open spec fn view(&self) -> UsageView {
        UsageView {
            reqs: self.reqs@,
            toks: self.toks@,
            cooldown_until: self.cooldown_until,
            failures: self.failures,
            last_error: self.last_error@,
            ttft_bits: self.ttft_bits,
            tps_bits: self.tps_bits,
        }
    }
}

/// The usage of a model that was never called.
pub open spec fn unused() -> UsageView {
    UsageView {
        reqs: Seq::empty(),
        toks: Seq::empty(),
        cooldown_until: 0,
        failures: 0,
        last_error: Seq::empty(),
        ttft_bits: 0,
        tps_bits: 0,
    }
}

/// `reqs` without what lies more than a day before `now` at its front.
pub open spec fn fresh_reqs(reqs: Seq<u64>, now: int) -> Seq<u64>
    decreases reqs.len(),
{
    if reqs.len() > 0 && reqs[0] + DAY < now {
        fresh_reqs(reqs.skip(1), now)
    } else {
        reqs
    }
}

/// `toks` without what lies more than a day before `now` at its front.
pub open spec fn fresh_toks(toks: Seq<(u64, u64)>, now: int) -> Seq<(u64, u64)>
    decreases toks.len(),
{
    if toks.len() > 0 && toks[0].0 + DAY < now {
        fresh_toks(toks.skip(1), now)
    } else {
        toks
    }
}

/// How many of the latest requests were made at or after `since`.
pub open spec fn count_from(reqs: Seq<u64>, since: int) -> nat
    decreases reqs.len(),
{
    if reqs.len() > 0 && reqs.last() >= since {
        1 + count_from(reqs.drop_last(), since)
    } else {
        0
    }
}

/// How many tokens the latest entries at or after `since` add up to.
pub open spec fn tokens_from(toks: Seq<(u64, u64)>, since: int) -> nat
    decreases toks.len(),
{
    if toks.len() > 0 && toks.last().0 >= since {
        toks.last().1 as nat + tokens_from(toks.drop_last(), since)
    } else {
        0
    }
}

impl UsageView {
    pub open spec fn pruned(self, now: int) -> UsageView {
        UsageView { reqs: fresh_reqs(self.reqs, now), toks: fresh_toks(self.toks, now), ..self }
    }
}

proof fn lemma_count_front(reqs: Seq<u64>, now: int, since: int)
    requires
        reqs.len() > 0,
        reqs[0] + DAY < now,
        since >= now - DAY,
    ensures
        count_from(reqs.skip(1), since) == count_from(reqs, since),
    decreases reqs.len(),
{
    if reqs.len() == 1 {
        assert(reqs.skip(1).len() == 0);
    } else {
        let t = reqs.skip(1);
        assert(t.last() == reqs.last());
        assert(t.drop_last() =~= reqs.drop_last().skip(1));
        assert(reqs.drop_last()[0] == reqs[0]);
        lemma_count_front(reqs.drop_last(), now, since);
    }
}

proof fn lemma_tokens_front(toks: Seq<(u64, u64)>, now: int, since: int)
    requires
        toks.len() > 0,
        toks[0].0 + DAY < now,
        since >= now - DAY,
    ensures
        tokens_from(toks.skip(1), since) == tokens_from(toks, since),
    decreases toks.len(),
{
    if toks.len() == 1 {
        assert(toks.skip(1).len() == 0);
    } else {
        let t = toks.skip(1);
        assert(t.last() == toks.last());
        assert(t.drop_last() =~= toks.drop_last().skip(1));
        assert(toks.drop_last()[0] == toks[0]);
        lemma_tokens_front(toks.drop_last(), now, since);
    }
}

/// Forgetting what is more than a day old never changes what a window of a day
/// or less counts.
pub proof fn pruning_keeps_windows(u: UsageView, now: int, since: int)
    requires
        since >= now - DAY,
    ensures
        count_from(u.pruned(now).reqs, since) == count_from(u.reqs, since),
        tokens_from(u.pruned(now).toks, since) == tokens_from(u.toks, since),
    decreases u.reqs.len() + u.toks.len(),
{
    if u.reqs.len() > 0 && u.reqs[0] + DAY < now {
        lemma_count_front(u.reqs, now, since);
        pruning_keeps_windows(UsageView { reqs: u.reqs.skip(1), ..u }, now, since);
    } else if u.toks.len() > 0 && u.toks[0].0 + DAY < now {
        lemma_tokens_front(u.toks, now, since);
        pruning_keeps_windows(UsageView { toks: u.toks.skip(1), ..u }, now, since);
    }
}

/// Pruning twice at one time is pruning once.
pub proof fn pruning_is_idempotent(u: UsageView, now: int)
    ensures
        u.pruned(now).pruned(now) == u.pruned(now),
    decreases u.reqs.len() + u.toks.len(),
{
    if u.reqs.len() > 0 && u.reqs[0] + DAY < now {
        pruning_is_idempotent(UsageView { reqs: u.reqs.skip(1), ..u }, now);
    } else if u.toks.len() > 0 && u.toks[0].0 + DAY < now {
        pruning_is_idempotent(UsageView { toks: u.toks.skip(1), ..u }, now);
    }
}

impl Usage {
    pub fn new() -> (u: Self)
        ensures
            u@ == unused(),
    {
        Usage {
            reqs: VecDeque::new(),
            toks: VecDeque::new(),
            cooldown_until: 0,
            failures: 0,
            last_error: String::new(),
            ttft_bits: 0,
            tps_bits: 0,
        }
    }

    pub fn prune(&mut self, now: u64)
        ensures
            final(self)@ == old(self)@.pruned(now as int),
    {
        let ghost reqs0 = self.reqs@;
        let ghost toks0 = self.toks@;
        while self.reqs.len() > 0 && now > DAY && self.reqs[0] < now - DAY
            invariant
                fresh_reqs(reqs0, now as int) == fresh_reqs(self.reqs@, now as int),
                self@ == (UsageView { reqs: self.reqs@, ..old(self)@ }),
            decreases self.reqs@.len(),
        {
            let ghost r = self.reqs@;
            let _ = self.reqs.pop_front();
            assert(self.reqs@ =~= r.skip(1));
        }
        assert(fresh_reqs(self.reqs@, now as int) == self.reqs@);
        while self.toks.len() > 0 && now > DAY && self.toks[0].0 < now - DAY
            invariant
                fresh_toks(toks0, now as int) == fresh_toks(self.toks@, now as int),
                self.reqs@ == fresh_reqs(reqs0, now as int),
                self@ == (UsageView { reqs: self.reqs@, toks: self.toks@, ..old(self)@ }),
            decreases self.toks@.len(),
        {
            let ghost r = self.toks@;
            let _ = self.toks.pop_front();
            assert(self.toks@ =~= r.skip(1));
        }
        assert(fresh_toks(self.toks@, now as int) == self.toks@);
    }

    /// Requests in the window that reaches `back` milliseconds behind `now`.
    pub fn count_since(&self, now: u64, back: u64) -> (n: u64)
        ensures
            n == count_from(self@.reqs, now - back),
    {
        let since: u64 = if now > back { now - back } else { 0 };
        let mut i: usize = self.reqs.len();
        let mut n: u64 = 0;
        assert(self.reqs@.take(i as int) =~= self.reqs@);
        while i > 0
            invariant
                i <= self.reqs@.len(),
                n + i <= self.reqs@.len(),
                since == (if now > back { now - back } else { 0 }),
                self.reqs@.len() <= usize::MAX,
                count_from(self.reqs@, now - back) == n + count_from(
                    self.reqs@.take(i as int),
                    now - back,
                ),
            decreases i,
        {
            let t = self.reqs[i - 1];
            let ghost s = self.reqs@.take(i as int);
            assert(s.last() == t);
            assert(s.drop_last() =~= self.reqs@.take(i - 1));
            if t < since {
                return n;
            }
            n += 1;
            i -= 1;
        }
        n
    }

    /// Tokens in the window that reaches `back` milliseconds behind `now`.
    pub fn tokens_since(&self, now: u64, back: u64) -> (n: u128)
        ensures
            n == tokens_from(self@.toks, now - back),
    {
        let since: u64 = if now > back { now - back } else { 0 };
        let mut i: usize = self.toks.len();
        let mut n: u128 = 0;
        assert(self.toks@.take(i as int) =~= self.toks@);
        while i > 0
            invariant
                i <= self.toks@.len(),
                since == (if now > back { now - back } else { 0 }),
                self.toks@.len() <= usize::MAX,
                n <= (self.toks@.len() - i) * u64::MAX,
                tokens_from(self.toks@, now - back) == n + tokens_from(
                    self.toks@.take(i as int),
                    now - back,
                ),
            decreases i,
        {
            let (t, k) = self.toks[i - 1];
            let ghost s = self.toks@.take(i as int);
            assert(s.last() == (t, k));
            assert(s.drop_last() =~= self.toks@.take(i - 1));
            if t < since {
                return n;
            }
            proof {
                let len = self.toks@.len() as int;
                assert((len - i) * u64::MAX + u64::MAX == (len - (i - 1)) * u64::MAX)
                    by (nonlinear_arith);
                assert((len - (i - 1)) * u64::MAX <= usize::MAX * u64::MAX) by (nonlinear_arith)
                    requires
                        len <= usize::MAX,
                        1 <= i <= len,
                ;
                assert(usize::MAX * u64::MAX <= u128::MAX) by (nonlinear_arith)
                    requires
                        usize::MAX <= 0xffff_ffff_ffff_ffff,
                ;
            }
            n += k as u128;
            i -= 1;
        }
        n
    }
}

} // verus!
