//! Pool router: picks a concrete model for `lunar/*`, keeps per-model usage
//! windows (requests and tokens per minute and per day), cooldowns and measured
//! latency, and fails over on rate limits and outages.

use crate::double::{context_fits, padded, whole, whole_of, SCALE};
use crate::provider::{Model, ModelView, PoolInfo, ProviderView, Registry, Strategy, POOL_PROVIDER};
use crate::table::{as_map, rows, Table};
use crate::text::{contains, has_part, has_text, lemma_lex_irreflexive, lowercase, same, texts};
use crate::usage::{count_from, pruning_keeps_windows, tokens_from, unused, Usage, UsageView, DAY, MINUTE};
use vstd::prelude::*;

verus! {

/// When the next day starts in UTC.
pub fn next_utc_midnight(now: u64) -> (t: u64)
    requires
        now <= u64::MAX - DAY,
    ensures
        t == (now / DAY + 1) * DAY,
        now < t <= now + DAY,
{
    (now / DAY + 1) * DAY
}

// ───────────────────────────── the ledger ─────────────────────────────

/// What is remembered of every model and provider.
pub struct Ledger {
    /// `provider/model` → usage
    pub models: Table<Usage>,
    /// provider → cooldown until, and why (auth failures)
    pub providers: Table<(u64, String)>,
}

#[verifier::ext_equal]
pub struct LedgerView {
    pub models: Map<Seq<char>, UsageView>,
    pub providers: Map<Seq<char>, (u64, Seq<char>)>,
}

impl View for Ledger {
    type V = LedgerView;

    open spec fn view(&self) -> LedgerView {
        LedgerView { models: self.models@, providers: self.providers@ }
    }
}

impl LedgerView {
    /// The usage under a key; that of an unused model where there is none.
    pub open spec fn usage(self, key: Seq<char>) -> UsageView {
        if self.models.contains_key(key) {
            self.models[key]
        } else {
            unused()
        }
    }

    pub open spec fn with(self, key: Seq<char>, u: UsageView) -> LedgerView {
        LedgerView { models: self.models.insert(key, u), ..self }
    }

    /// Until when the whole provider is left alone.
    pub open spec fn provider_until(self, provider: Seq<char>) -> u64 {
        if self.providers.contains_key(provider) {
            self.providers[provider].0
        } else {
            0
        }
    }
}

impl Ledger {
    pub fn new() -> (l: Self)
        ensures
            l@.models == Map::<Seq<char>, UsageView>::empty(),
            l@.providers == Map::<Seq<char>, (u64, Seq<char>)>::empty(),
    {
        Ledger { models: Table::new(), providers: Table::new() }
    }

    /// The ledger of what was written down: the usage of models, and the
    /// cooldowns of providers.
    pub fn restore(models: Vec<(String, Usage)>, providers: Vec<(String, (u64, String))>) -> (l: Self)
        ensures
            l@.models == as_map(rows(models@)),
            l@.providers == as_map(rows(providers@)),
    {
        Ledger { models: Table::of(models), providers: Table::of(providers) }
    }

    /// Takes the usage under `key` out, a new one where there is none.
    fn take(&mut self, key: &str) -> (u: Usage)
        ensures
            u@ == old(self)@.usage(key@),
            final(self)@ == (LedgerView { models: old(self)@.models.remove(key@), ..old(self)@ }),
    {
        match self.models.remove(key) {
            Some(u) => u,
            None => Usage::new(),
        }
    }

    fn put(&mut self, key: String, u: Usage)
        ensures
            final(self)@ == old(self)@.with(key@, u@),
    {
        self.models.insert(key, u);
    }
}

proof fn lemma_put_back(l: LedgerView, key: Seq<char>, u: UsageView)
    ensures
        (LedgerView { models: l.models.remove(key), ..l }).with(key, u) == l.with(key, u),
{
    assert(l.models.remove(key).insert(key, u) =~= l.models.insert(key, u));
}

// ───────────────────────────── failures ─────────────────────────────

/// Why a call to a model failed. `message` is the error as it is shown.
#[derive(Debug)]
pub enum LlmError {
    Authentication { message: String },
    RateLimited { message: String, retry_after_ms: Option<u64> },
    Provider { status: u16, message: String, retry_after_ms: Option<u64> },
    Network { message: String },
    Timeout { message: String },
    InvalidOutput { message: String },
    InvalidRequest { message: String },
    /// anything that says nothing of the model's state
    Other { message: String },
}

impl LlmError {
    pub open spec fn text(self) -> Seq<char> {
        match self {
            LlmError::Authentication { message } => message@,
            LlmError::RateLimited { message, .. } => message@,
            LlmError::Provider { message, .. } => message@,
            LlmError::Network { message } => message@,
            LlmError::Timeout { message } => message@,
            LlmError::InvalidOutput { message } => message@,
            LlmError::InvalidRequest { message } => message@,
            LlmError::Other { message } => message@,
        }
    }

    /// Whether a failure of this kind is held against the model itself.
    pub open spec fn blames_model(self) -> bool {
        !(self is Authentication) && !(self is Other)
    }

    pub fn message(&self) -> (s: &String)
        ensures
            s@ == self.text(),
    {
        match self {
            LlmError::Authentication { message } => message,
            LlmError::RateLimited { message, .. } => message,
            LlmError::Provider { message, .. } => message,
            LlmError::Network { message } => message,
            LlmError::Timeout { message } => message,
            LlmError::InvalidOutput { message } => message,
            LlmError::InvalidRequest { message } => message,
            LlmError::Other { message } => message,
        }
    }
}

/// Whether an error speaks of a limit per day.
pub open spec fn daily(message: Seq<char>) -> bool {
    let lower = lowercase(message);
    ||| contains(lower, "per day"@)
    ||| contains(lower, "daily"@)
    ||| contains(lower, "quota exceeded"@)
    ||| contains(lower, "rpd"@)
    ||| contains(lower, "tokens per day"@)
}

pub fn is_daily(message: &str) -> (b: bool)
    ensures
        b == daily(message@),
{
    let lower = message.to_lowercase();
    let t = lower.as_str();
    has_part(t, "per day") || has_part(t, "daily") || has_part(t, "quota exceeded") || has_part(
        t,
        "rpd",
    ) || has_part(t, "tokens per day")
}

/// 2^k
pub open spec fn power(k: nat) -> nat
    decreases k,
{
    if k == 0 {
        1
    } else {
        2 * power((k - 1) as nat)
    }
}

pub open spec fn least(a: int, b: int) -> int {
    if a <= b {
        a
    } else {
        b
    }
}

pub open spec fn greatest(a: int, b: int) -> int {
    if a >= b {
        a
    } else {
        b
    }
}

/// `base` doubled for each failure, but no more than `most` times, and no more
/// than `cap` in all.
pub open spec fn backoff(base: int, failures: int, most: int, cap: int) -> int {
    least(base * power(least(failures, most) as nat), cap)
}

fn backed_off(base: u64, failures: u32, most: u32, cap: u64) -> (ms: u64)
    requires
        most <= 6,
    ensures
        ms == backoff(base as int, failures as int, most as int, cap as int),
        ms <= cap,
{
    let n: u32 = if failures < most { failures } else { most };
    let mut k: u32 = 0;
    let mut p: u128 = 1;
    while k < n
        invariant
            k <= n <= 6,
            p == power(k as nat),
            p <= 64,
            k == 0 ==> p == 1,
            k == 1 ==> p == 2,
            k == 2 ==> p == 4,
            k == 3 ==> p == 8,
            k == 4 ==> p == 16,
            k == 5 ==> p == 32,
        decreases n - k,
    {
        p = 2 * p;
        k += 1;
    }
    assert(base * p <= u64::MAX * 64) by (nonlinear_arith)
        requires
            base <= u64::MAX,
            p <= 64,
    ;
    let ms: u128 = base as u128 * p;
    if ms < cap as u128 {
        ms as u64
    } else {
        cap
    }
}

/// The cooldown in milliseconds after a failure, where `failures` counts it.
pub open spec fn cooldown(err: LlmError, failures: int, now: int) -> int {
    let rest_of_day = (now / DAY as int + 1) * DAY - now;
    match err {
        LlmError::Authentication { .. } => 60 * MINUTE,
        LlmError::RateLimited { retry_after_ms, .. } => if daily(err.text()) {
            rest_of_day
        } else {
            let base = match retry_after_ms {
                Some(ms) => greatest(ms as int, 60_000),
                None => 60_000,
            };
            backoff(base, failures, 6, 60 * MINUTE)
        },
        LlmError::Provider { status, retry_after_ms, .. } => if status == 404 {
            24 * 60 * MINUTE
        } else if status == 400 || status == 422 {
            30 * MINUTE
        } else if status == 402 || status == 403 {
            6 * 60 * MINUTE
        } else if status == 429 {
            if daily(err.text()) {
                rest_of_day
            } else {
                let base = match retry_after_ms {
                    Some(ms) => greatest(ms as int, 60_000),
                    None => 60_000,
                };
                backoff(base, failures, 6, 60 * MINUTE)
            }
        } else {
            backoff(30_000, failures, 5, 15 * MINUTE)
        },
        LlmError::Network { .. } => backoff(30_000, failures, 4, 10 * MINUTE),
        LlmError::Timeout { .. } => backoff(30_000, failures, 4, 10 * MINUTE),
        LlmError::InvalidOutput { .. } => 10 * MINUTE as int,
        LlmError::InvalidRequest { .. } => 10 * MINUTE as int,
        LlmError::Other { .. } => 0,
    }
}

/// What a failure leaves in the ledger: a failed login cools the provider down,
/// anything else that tells of the model cools the model down.
pub open spec fn after_failure(l: LedgerView, m: ModelView, err: LlmError, now: int) -> LedgerView {
    if err is Authentication {
        LedgerView {
            providers: l.providers.insert(m.provider_id, ((now + 60 * MINUTE) as u64, err.text())),
            ..l
        }
    } else if err.blames_model() {
        let u = l.usage(m.key());
        let failures = u.failures + 1;
        l.with(
            m.key(),
            UsageView {
                failures: failures as u32,
                cooldown_until: (now + cooldown(err, failures, now)) as u64,
                last_error: err.text(),
                ..u
            },
        )
    } else {
        l
    }
}

/// How long a failure keeps the model, or its provider, out.
fn cooldown_of(err: &LlmError, failures: u32, now: u64) -> (ms: u64)
    requires
        now <= u64::MAX - 2 * DAY,
    ensures
        ms == cooldown(*err, failures as int, now as int),
        ms <= DAY,
{
    let message = err.message();
    let rest_of_day: u64 = next_utc_midnight(now) - now;
    match err {
        LlmError::Authentication { .. } => 60 * MINUTE,
        LlmError::RateLimited { retry_after_ms, .. } => {
            let base: u64 = match retry_after_ms {
                Some(ms) => if *ms > 60_000 {
                    *ms
                } else {
                    60_000
                },
                None => 60_000,
            };
            if is_daily(message.as_str()) {
                rest_of_day
            } else {
                backed_off(base, failures, 6, 60 * MINUTE)
            }
        },
        LlmError::Provider { status, retry_after_ms, .. } => {
            let status = *status;
            if status == 404 {
                24 * 60 * MINUTE
            } else if status == 400 || status == 422 {
                30 * MINUTE
            } else if status == 402 || status == 403 {
                6 * 60 * MINUTE
            } else if status == 429 {
                let base: u64 = match retry_after_ms {
                    Some(ms) => if *ms > 60_000 {
                        *ms
                    } else {
                        60_000
                    },
                    None => 60_000,
                };
                if is_daily(message.as_str()) {
                    rest_of_day
                } else {
                    backed_off(base, failures, 6, 60 * MINUTE)
                }
            } else {
                backed_off(30_000, failures, 5, 15 * MINUTE)
            }
        },
        LlmError::Network { .. } => backed_off(30_000, failures, 4, 10 * MINUTE),
        LlmError::Timeout { .. } => backed_off(30_000, failures, 4, 10 * MINUTE),
        LlmError::InvalidOutput { .. } => 10 * MINUTE,
        LlmError::InvalidRequest { .. } => 10 * MINUTE,
        LlmError::Other { .. } => 0,
    }
}

// ───────────────────────────── availability ─────────────────────────────

/// Why a model is not usable now.
#[derive(Debug, Clone, Copy, PartialEq, Eq, Structural)]
pub enum Refusal {
    ProviderCooldown,
    NotInPool,
    Cooldown,
    Rpm,
    Rpd,
    Tpm,
    Tpd,
}

impl Refusal {
    pub open spec fn spec_name(self) -> Seq<char> {
        match self {
            Refusal::ProviderCooldown => "provider cooldown"@,
            Refusal::NotInPool => "not in pool"@,
            Refusal::Cooldown => "cooldown"@,
            Refusal::Rpm => "rpm"@,
            Refusal::Rpd => "rpd"@,
            Refusal::Tpm => "tpm"@,
            Refusal::Tpd => "tpd"@,
        }
    }

    pub fn name(self) -> (s: &'static str)
        ensures
            s@ == self.spec_name(),
    {
        match self {
            Refusal::ProviderCooldown => "provider cooldown",
            Refusal::NotInPool => "not in pool",
            Refusal::Cooldown => "cooldown",
            Refusal::Rpm => "rpm",
            Refusal::Rpd => "rpd",
            Refusal::Tpm => "tpm",
            Refusal::Tpd => "tpd",
        }
    }
}

/// How a usable model stands: what its score is made of. Each limit that the
/// model declares comes with how much of it is used.
#[derive(Debug, Clone, Copy)]
pub struct Standing {
    pub rpm: Option<(u64, u64)>,
    pub rpd: Option<(u64, u64)>,
    pub tpm: Option<(u64, u64)>,
    pub tpd: Option<(u64, u64)>,
    pub failures: u32,
    pub ttft_bits: u64,
    pub tps_bits: u64,
}

pub open spec fn requests_full(limit: Option<u64>, u: UsageView, since: int) -> bool {
    limit matches Some(n) && count_from(u.reqs, since) >= n
}

pub open spec fn tokens_full(limit: Option<u64>, u: UsageView, since: int, tokens: int) -> bool {
    limit matches Some(n) && tokens_from(u.toks, since) + tokens > n
}

/// Why `m` cannot take a prompt of `tokens` tokens at `now`, if it cannot: its
/// provider or the model cools down, it is not in the pool, or a limit that it
/// declares is used up.
pub open spec fn refusal(l: LedgerView, m: ModelView, tokens: int, now: int) -> Option<Refusal> {
    let u = l.usage(m.key());
    if l.provider_until(m.provider_id) > now {
        Some(Refusal::ProviderCooldown)
    } else if m.pool is None {
        Some(Refusal::NotInPool)
    } else {
        let info = m.pool->0;
        if u.cooldown_until > now {
            Some(Refusal::Cooldown)
        } else if requests_full(info.rpm, u, now - MINUTE) {
            Some(Refusal::Rpm)
        } else if requests_full(info.rpd, u, now - DAY) {
            Some(Refusal::Rpd)
        } else if tokens_full(info.tpm, u, now - MINUTE, tokens) {
            Some(Refusal::Tpm)
        } else if tokens_full(info.tpd, u, now - DAY, tokens) {
            Some(Refusal::Tpd)
        } else {
            None
        }
    }
}

pub open spec fn requests_used(limit: Option<u64>, u: UsageView, since: int) -> Option<(u64, u64)> {
    match limit {
        Some(n) => Some((count_from(u.reqs, since) as u64, n)),
        None => None,
    }
}

pub open spec fn tokens_used(limit: Option<u64>, u: UsageView, since: int) -> Option<(u64, u64)> {
    match limit {
        Some(n) => Some((tokens_from(u.toks, since) as u64, n)),
        None => None,
    }
}

pub open spec fn standing(l: LedgerView, m: ModelView, now: int) -> Standing {
    let u = l.usage(m.key());
    let info = m.pool->0;
    Standing {
        rpm: requests_used(info.rpm, u, now - MINUTE),
        rpd: requests_used(info.rpd, u, now - DAY),
        tpm: tokens_used(info.tpm, u, now - MINUTE),
        tpd: tokens_used(info.tpd, u, now - DAY),
        failures: u.failures,
        ttft_bits: u.ttft_bits,
        tps_bits: u.tps_bits,
    }
}

/// The ledger after a look at `m`: its usage is pruned, unless the look ended
/// before it came to that.
pub open spec fn after_look(l: LedgerView, m: ModelView, now: int) -> LedgerView {
    if l.provider_until(m.provider_id) > now || m.pool is None {
        l
    } else {
        l.with(m.key(), l.usage(m.key()).pruned(now))
    }
}

/// Looking at one model does not change whether, or how, another can be used.
pub proof fn looking_changes_nothing(l: LedgerView, seen: ModelView, m: ModelView, tokens: int, now: int)
    ensures
        refusal(after_look(l, seen, now), m, tokens, now) == refusal(l, m, tokens, now),
        standing(after_look(l, seen, now), m, now) == standing(l, m, now),
{
    let u = l.usage(m.key());
    pruning_keeps_windows(u, now, now - MINUTE);
    pruning_keeps_windows(u, now, now - DAY);
}

impl Ledger {
    fn provider_until(&self, provider: &str) -> (t: u64)
        ensures
            t == self@.provider_until(provider@),
    {
        match self.providers.get(provider) {
            Some(p) => p.0,
            None => 0,
        }
    }

    /// Whether a model is usable now: not cooling down and under every limit
    /// that it declares. `tokens` is the estimated prompt size.
    pub fn available(&mut self, model: &Model, tokens: u64, now: u64) -> (r: Result<Standing, Refusal>)
        ensures
            final(self)@ == after_look(old(self)@, model@, now as int),
            match r {
                Ok(s) => refusal(old(self)@, model@, tokens as int, now as int) is None && s
                    == standing(old(self)@, model@, now as int),
                Err(why) => refusal(old(self)@, model@, tokens as int, now as int) == Some(why),
            },
    {
        if self.provider_until(model.provider_id.as_str()) > now {
            return Err(Refusal::ProviderCooldown);
        }
        let info = match model.pool {
            Some(info) => info,
            None => {
                return Err(Refusal::NotInPool);
            },
        };
        let key = model.key();
        let mut u = self.take(key.as_str());
        let ghost before = u@;
        u.prune(now);
        proof {
            pruning_keeps_windows(before, now as int, now - MINUTE);
            pruning_keeps_windows(before, now as int, now - DAY);
            lemma_put_back(old(self)@, key@, u@);
        }
        let r = Self::assess(&u, &info, tokens, now);
        self.put(key, u);
        r
    }

    fn assess(u: &Usage, info: &PoolInfo, tokens: u64, now: u64) -> (r: Result<Standing, Refusal>)
        ensures
            ({
                let v = u@;
                match r {
                    Ok(s) => {
                        &&& v.cooldown_until <= now
                        &&& !requests_full(info.rpm, v, now - MINUTE)
                        &&& !requests_full(info.rpd, v, now - DAY)
                        &&& !tokens_full(info.tpm, v, now - MINUTE, tokens as int)
                        &&& !tokens_full(info.tpd, v, now - DAY, tokens as int)
                        &&& s.rpm == requests_used(info.rpm, v, now - MINUTE)
                        &&& s.rpd == requests_used(info.rpd, v, now - DAY)
                        &&& s.tpm == tokens_used(info.tpm, v, now - MINUTE)
                        &&& s.tpd == tokens_used(info.tpd, v, now - DAY)
                        &&& s.failures == v.failures && s.ttft_bits == v.ttft_bits && s.tps_bits
                            == v.tps_bits
                    },
                    Err(why) => Some(why) == (if v.cooldown_until > now {
                        Some(Refusal::Cooldown)
                    } else if requests_full(info.rpm, v, now - MINUTE) {
                        Some(Refusal::Rpm)
                    } else if requests_full(info.rpd, v, now - DAY) {
                        Some(Refusal::Rpd)
                    } else if tokens_full(info.tpm, v, now - MINUTE, tokens as int) {
                        Some(Refusal::Tpm)
                    } else if tokens_full(info.tpd, v, now - DAY, tokens as int) {
                        Some(Refusal::Tpd)
                    } else {
                        None
                    }),
                }
            }),
    {
        if u.cooldown_until > now {
            return Err(Refusal::Cooldown);
        }
        let mut s = Standing {
            rpm: None,
            rpd: None,
            tpm: None,
            tpd: None,
            failures: u.failures,
            ttft_bits: u.ttft_bits,
            tps_bits: u.tps_bits,
        };
        if let Some(rpm) = info.rpm {
            let used = u.count_since(now, MINUTE);
            if used >= rpm {
                return Err(Refusal::Rpm);
            }
            s.rpm = Some((used, rpm));
        }
        if let Some(rpd) = info.rpd {
            let used = u.count_since(now, DAY);
            if used >= rpd {
                return Err(Refusal::Rpd);
            }
            s.rpd = Some((used, rpd));
        }
        if let Some(tpm) = info.tpm {
            let used = u.tokens_since(now, MINUTE);
            if used > u64::MAX as u128 || used + tokens as u128 > tpm as u128 {
                return Err(Refusal::Tpm);
            }
            s.tpm = Some((used as u64, tpm));
        }
        if let Some(tpd) = info.tpd {
            let used = u.tokens_since(now, DAY);
            if used > u64::MAX as u128 || used + tokens as u128 > tpd as u128 {
                return Err(Refusal::Tpd);
            }
            s.tpd = Some((used as u64, tpd));
        }
        Ok(s)
    }
}

// ───────────────────────────── what a request needs ─────────────────────────────

/// What the request needs from a model.
#[derive(Debug)]
pub struct Need {
    pub tools: bool,
    pub vision: bool,
    /// estimated prompt tokens
    pub tokens: u64,
    /// last user message, for the auto strategy's task heuristic
    pub user_text: String,
}

pub struct NeedView {
    pub tools: bool,
    pub vision: bool,
    pub tokens: u64,
    pub user_text: Seq<char>,
}

impl View for Need {
    type V = NeedView;

    open spec fn view(&self) -> NeedView {
        NeedView {
            tools: self.tools,
            vision: self.vision,
            tokens: self.tokens,
            user_text: self.user_text@,
        }
    }
}

impl Default for Need {
    fn default() -> (r: Self)
        ensures
            r@ == (NeedView { tools: false, vision: false, tokens: 0, user_text: Seq::empty() }),
    {
        Need { tools: false, vision: false, tokens: 0, user_text: String::new() }
    }
}

impl Clone for Need {
    fn clone(&self) -> (r: Self)
        ensures
            r@ == self@,
    {
        Need {
            tools: self.tools,
            vision: self.vision,
            tokens: self.tokens,
            user_text: self.user_text.clone(),
        }
    }
}

pub open spec fn hard_task(text: Seq<char>) -> bool {
    ||| contains(text, "refactor"@)
    ||| contains(text, "implement"@)
    ||| contains(text, "debug"@)
    ||| contains(text, "architecture"@)
    ||| contains(text, "design"@)
    ||| contains(text, "prove"@)
    ||| contains(text, "analyze"@)
    ||| contains(text, "analyse"@)
    ||| contains(text, "migrate"@)
    ||| contains(text, "optimize"@)
    ||| contains(text, "security"@)
    ||| contains(text, "review"@)
}

pub open spec fn quick_task(text: Seq<char>) -> bool {
    ||| contains(text, "quick"@)
    ||| contains(text, "briefly"@)
    ||| contains(text, "one word"@)
    ||| contains(text, "yes or no"@)
    ||| contains(text, "tl;dr"@)
    ||| contains(text, "short answer"@)
}

/// The `auto` strategy: agentic or coding work with tools or big prompts wants
/// the smartest model; short chat wants the fastest; everything else balances.
pub open spec fn auto_strategy(need: NeedView) -> Strategy {
    let text = lowercase(need.user_text);
    if need.tools || need.tokens > 24_000 || hard_task(text) {
        Strategy::Smart
    } else if text.len() < 160 || quick_task(text) {
        Strategy::Fast
    } else {
        Strategy::Auto
    }
}

pub fn classify(need: &Need) -> (s: Strategy)
    ensures
        s == auto_strategy(need@),
{
    let lower = need.user_text.as_str().to_lowercase();
    let t = lower.as_str();
    let hard = has_part(t, "refactor") || has_part(t, "implement") || has_part(t, "debug")
        || has_part(t, "architecture") || has_part(t, "design") || has_part(t, "prove") || has_part(
        t,
        "analyze",
    ) || has_part(t, "analyse") || has_part(t, "migrate") || has_part(t, "optimize") || has_part(
        t,
        "security",
    ) || has_part(t, "review");
    if need.tools || need.tokens > 24_000 || hard {
        return Strategy::Smart;
    }
    if t.unicode_len() < 160 || has_part(t, "quick") || has_part(t, "briefly") || has_part(
        t,
        "one word",
    ) || has_part(t, "yes or no") || has_part(t, "tl;dr") || has_part(t, "short answer") {
        return Strategy::Fast;
    }
    Strategy::Auto
}

/// The strategy that a pick goes by: `auto` is settled by the request.
pub open spec fn effective(strategy: Strategy, need: NeedView) -> Strategy {
    match strategy {
        Strategy::Auto => auto_strategy(need),
        s => s,
    }
}

/// What a strategy gives quality, speed and headroom, in hundredths.
pub open spec fn weights(s: Strategy) -> (int, int, int) {
    match s {
        Strategy::Smart => (75, 5, 20),
        Strategy::Fast => (25, 55, 20),
        Strategy::Auto => (50, 30, 20),
    }
}

/// The weights that a pick for `need` scores by.
pub fn weights_for(strategy: Strategy, need: &Need) -> (w: (u32, u32, u32))
    ensures
        w.0 == weights(effective(strategy, need@)).0,
        w.1 == weights(effective(strategy, need@)).1,
        w.2 == weights(effective(strategy, need@)).2,
{
    let s = match strategy {
        Strategy::Auto => classify(need),
        s => s,
    };
    match s {
        Strategy::Smart => (75, 5, 20),
        Strategy::Fast => (25, 55, 20),
        Strategy::Auto => (50, 30, 20),
    }
}

// ───────────────────────────── candidates ─────────────────────────────

pub open spec fn values<T>(e: Seq<(Seq<char>, T)>) -> Seq<T> {
    Seq::new(e.len(), |i: int| e[i].1)
}

/// The models of the connected providers, but for the pool's own virtual ones,
/// provider by provider.
pub open spec fn offered(reg: Seq<(Seq<char>, ProviderView)>) -> Seq<ModelView>
    decreases reg.len(),
{
    if reg.len() == 0 {
        Seq::empty()
    } else {
        let p = reg.last().1;
        let before = offered(reg.drop_last());
        if p.connected && p.id != POOL_PROVIDER@ {
            before + values(p.models)
        } else {
            before
        }
    }
}

/// Whether a model can serve a request at all, its usage aside.
pub open spec fn suits(m: ModelView, need: NeedView, exclude: Seq<Seq<char>>) -> bool {
    &&& m.pool is Some
    &&& m.protocol is Some
    &&& !exclude.contains(m.key())
    &&& need.tools ==> m.tool_call
    &&& need.vision ==> m.attachment
    &&& m.context * SCALE >= padded(need.tokens)
}

pub open spec fn candidates(
    reg: Seq<(Seq<char>, ProviderView)>,
    need: NeedView,
    exclude: Seq<Seq<char>>,
) -> Seq<ModelView> {
    offered(reg).filter(|m: ModelView| suits(m, need, exclude))
}

pub open spec fn models(v: Seq<Model>) -> Seq<ModelView> {
    Seq::new(v.len(), |i: int| v[i]@)
}

fn suitable(m: &Model, need: &Need, exclude: &Vec<String>) -> (b: bool)
    ensures
        b == suits(m@, need@, texts(exclude@)),
{
    let key = m.key();
    m.pool.is_some() && m.protocol.is_some() && !has_text(exclude, key.as_str()) && (!need.tools
        || m.tool_call) && (!need.vision || m.attachment) && context_fits(m.context, need.tokens)
}

/// The models that may be picked for `need`, in the order in which they are
/// looked at.
pub fn candidates_for(registry: &Registry, need: &Need, exclude: &Vec<String>) -> (c: Vec<Model>)
    ensures
        models(c@) == candidates(registry@, need@, texts(exclude@)),
{
    let ghost pred = |m: ModelView| suits(m, need@, texts(exclude@));
    let mut out: Vec<Model> = Vec::new();
    let n = registry.providers.len();
    let mut i: usize = 0;
    let ghost reg = registry@;
    proof {
        reveal(Seq::filter);
        assert(offered(reg.take(0)).filter(pred) =~= Seq::empty());
        assert(models(out@) =~= Seq::empty());
    }
    while i < n
        invariant
            i <= n,
            n == reg.len(),
            reg == registry@,
            pred == (|m: ModelView| suits(m, need@, texts(exclude@))),
            models(out@) == offered(reg.take(i as int)).filter(pred),
        decreases n - i,
    {
        let p = registry.providers.value(i);
        let ghost before = offered(reg.take(i as int));
        assert(reg.take(i + 1).drop_last() =~= reg.take(i as int));
        assert(reg.take(i + 1).last() == reg[i as int]);
        if p.connected && !same(p.id.as_str(), POOL_PROVIDER) {
            let k = p.models.len();
            let ghost all = values(p@.models);
            let mut j: usize = 0;
            proof {
                reveal(Seq::filter);
                assert(all.take(0).filter(pred) =~= Seq::empty());
                assert(before.filter(pred) + all.take(0).filter(pred) =~= before.filter(pred));
            }
            while j < k
                invariant
                    j <= k,
                    k == all.len(),
                    all == values(p@.models),
                    pred == (|m: ModelView| suits(m, need@, texts(exclude@))),
                    models(out@) == before.filter(pred) + all.take(j as int).filter(pred),
                decreases k - j,
            {
                let m = p.models.value(j);
                proof {
                    reveal(Seq::filter);
                    assert(all.take(j + 1).drop_last() =~= all.take(j as int));
                    assert(all.take(j + 1).last() == m@);
                }
                if suitable(m, need, exclude) {
                    let ghost was = models(out@);
                    out.push(m.clone());
                    assert(models(out@) =~= was.push(m@));
                    assert(models(out@) =~= before.filter(pred) + all.take(j + 1).filter(pred));
                }
                j += 1;
            }
            proof {
                assert(all.take(k as int) =~= all);
                Seq::filter_distributes_over_add(before, all, pred);
            }
        }
        i += 1;
    }
    assert(reg.take(n as int) =~= reg);
    out
}

// ───────────────────────────── the router ─────────────────────────────

#[derive(Debug)]
pub struct Pick {
    pub model: Model,
    pub reason: String,
}

/// Per-model status for status displays.
#[derive(Debug)]
pub struct ModelUsage {
    pub provider: String,
    pub model: String,
    pub rpm_used: u64,
    pub rpd_used: u64,
    pub tpm_used: u64,
    pub tpd_used: u64,
    pub cooldown_secs: u64,
    pub last_error: String,
    pub ttft_ms: u64,
    pub tps: u64,
}

pub struct Router {
    pub ledger: Ledger,
    /// session → (provider/model, expires at ms)
    pub sticky: Table<(String, u64)>,
}

#[verifier::ext_equal]
pub struct RouterView {
    pub ledger: LedgerView,
    pub sticky: Map<Seq<char>, (Seq<char>, u64)>,
}

impl View for Router {
    type V = RouterView;

    open spec fn view(&self) -> RouterView {
        RouterView { ledger: self.ledger@, sticky: self.sticky@ }
    }
}

/// Where in `c` the first model with this key stands.
pub open spec fn position(c: Seq<ModelView>, key: Seq<char>) -> Option<int>
    decreases c.len(),
{
    if c.len() == 0 {
        None
    } else if c[0].key() == key {
        Some(0)
    } else {
        match position(c.skip(1), key) {
            Some(i) => Some(i + 1),
            None => None,
        }
    }
}

proof fn lemma_position(c: Seq<ModelView>, key: Seq<char>)
    ensures
        match position(c, key) {
            Some(i) => 0 <= i < c.len() && c[i].key() == key,
            None => forall|i: int| 0 <= i < c.len() ==> (#[trigger] c[i]).key() != key,
        },
    decreases c.len(),
{
    if c.len() > 0 && c[0].key() != key {
        lemma_position(c.skip(1), key);
        assert forall|i: int| 0 <= i < c.len() && position(c, key) is None implies (
        #[trigger] c[i]).key() != key by {
            if i > 0 {
                assert(c.skip(1)[i - 1] == c[i]);
            }
        }
    }
}

/// The candidate that the session sticks to, if it sticks to one.
pub open spec fn kept(r: RouterView, c: Seq<ModelView>, session: Seq<char>, now: int) -> Option<int> {
    if r.sticky.contains_key(session) && r.sticky[session].1 > now {
        position(c, r.sticky[session].0)
    } else {
        None
    }
}

/// Which candidates can be used now.
pub open spec fn usable(l: LedgerView, c: Seq<ModelView>, tokens: int, now: int) -> Seq<bool> {
    Seq::new(c.len(), |i: int| refusal(l, c[i], tokens, now) is None)
}

/// The first of those with the highest score among the usable.
pub open spec fn leader(ok: Seq<bool>, scores: Seq<i64>) -> Option<int>
    decreases ok.len(),
{
    if ok.len() == 0 {
        None
    } else {
        let k = ok.len() - 1;
        let before = leader(ok.drop_last(), scores);
        if !ok[k] {
            before
        } else {
            match before {
                None => Some(k),
                Some(b) => if scores[k] > scores[b] {
                    Some(k)
                } else {
                    Some(b)
                },
            }
        }
    }
}

/// The leader is usable, no usable candidate scores higher, and those before it
/// score less. There is none exactly where nothing is usable.
pub proof fn leader_is_first_best(ok: Seq<bool>, scores: Seq<i64>)
    ensures
        match leader(ok, scores) {
            Some(b) => {
                &&& 0 <= b < ok.len() && ok[b]
                &&& forall|i: int| 0 <= i < ok.len() && #[trigger] ok[i] ==> scores[i] <= scores[b]
                &&& forall|i: int| 0 <= i < b && #[trigger] ok[i] ==> scores[i] < scores[b]
            },
            None => forall|i: int| 0 <= i < ok.len() ==> !#[trigger] ok[i],
        },
    decreases ok.len(),
{
    if ok.len() > 0 {
        let d = ok.drop_last();
        leader_is_first_best(d, scores);
        assert(forall|i: int| 0 <= i < d.len() ==> #[trigger] ok[i] == d[i]);
    }
}

pub open spec fn after_looks(l: LedgerView, c: Seq<ModelView>, now: int) -> LedgerView
    decreases c.len(),
{
    if c.len() == 0 {
        l
    } else {
        after_look(after_looks(l, c.drop_last(), now), c.last(), now)
    }
}

proof fn lemma_looks(l: LedgerView, c: Seq<ModelView>, m: ModelView, tokens: int, now: int)
    ensures
        refusal(after_looks(l, c, now), m, tokens, now) == refusal(l, m, tokens, now),
        standing(after_looks(l, c, now), m, now) == standing(l, m, now),
    decreases c.len(),
{
    if c.len() > 0 {
        lemma_looks(l, c.drop_last(), m, tokens, now);
        looking_changes_nothing(after_looks(l, c.drop_last(), now), c.last(), m, tokens, now);
    }
}

/// What a pick comes to: the router afterwards, and the model with the reason
/// for it. A session sticks to its model while that stays usable; otherwise the
/// first best-scored usable candidate is taken, and stuck to.
pub open spec fn picked(
    r: RouterView,
    c: Seq<ModelView>,
    strategy: Strategy,
    need: NeedView,
    session: Seq<char>,
    sticky_minutes: int,
    now: int,
    scores: Seq<i64>,
) -> (RouterView, Option<(ModelView, Seq<char>)>) {
    let tokens = need.tokens as int;
    let keep = if sticky_minutes > 0 {
        kept(r, c, session, now)
    } else {
        None
    };
    let l1 = match keep {
        Some(i) => after_look(r.ledger, c[i], now),
        None => r.ledger,
    };
    if c.len() == 0 {
        (r, None)
    } else if keep is Some && refusal(r.ledger, c[keep->0], tokens, now) is None {
        (RouterView { ledger: l1, ..r }, Some((c[keep->0], "sticky"@)))
    } else {
        let l2 = after_looks(l1, c, now);
        match leader(usable(r.ledger, c, tokens, now), scores) {
            None => (RouterView { ledger: l2, ..r }, None),
            Some(b) => {
                let sticky = if sticky_minutes > 0 {
                    r.sticky.insert(session, (c[b].key(), (now + sticky_minutes * MINUTE) as u64))
                } else {
                    r.sticky
                };
                (
                    RouterView { ledger: l2, sticky },
                    Some((c[b], effective(strategy, need).spec_name())),
                )
            },
        }
    }
}

pub open spec fn pick_view(p: Option<Pick>) -> Option<(ModelView, Seq<char>)> {
    match p {
        Some(p) => Some((p.model@, p.reason@)),
        None => None,
    }
}

impl Router {
    /// A router that goes on from a ledger, or starts with an empty one.
    pub fn new(ledger: Option<Ledger>) -> (r: Router)
        ensures
            r@.sticky == Map::<Seq<char>, (Seq<char>, u64)>::empty(),
            match ledger {
                Some(l) => r@.ledger == l@,
                None => r@.ledger.models == Map::<Seq<char>, UsageView>::empty()
                    && r@.ledger.providers == Map::<Seq<char>, (u64, Seq<char>)>::empty(),
            },
    {
        let ledger = match ledger {
            Some(l) => l,
            None => Ledger::new(),
        };
        Router { ledger, sticky: Table::new() }
    }

    /// Where the first of `c` with this key stands.
    fn find(c: &Vec<Model>, key: &str) -> (r: Option<usize>)
        ensures
            match r {
                Some(i) => position(models(c@), key@) == Some(i as int),
                None => position(models(c@), key@) is None,
            },
            r matches Some(i) ==> i < c@.len(),
    {
        let ghost v = models(c@);
        let mut i: usize = 0;
        assert(v.skip(0) =~= v);
        while i < c.len()
            invariant
                i <= c@.len(),
                v == models(c@),
                position(v, key@) == (match position(v.skip(i as int), key@) {
                    Some(j) => Some(j + i),
                    None => None,
                }),
            decreases c@.len() - i,
        {
            assert(v.skip(i as int)[0] == c@[i as int]@);
            assert(v.skip(i as int).skip(1) =~= v.skip(i + 1));
            let k = c[i].key();
            if same(k.as_str(), key) {
                return Some(i);
            }
            i += 1;
        }
        None
    }

    /// Looks at every candidate and finds the leader among the usable ones.
    fn lead(&mut self, c: &Vec<Model>, tokens: u64, now: u64, scores: &Vec<i64>) -> (r: Option<usize>)
        requires
            scores@.len() == c@.len(),
        ensures
            final(self)@ == (RouterView {
                ledger: after_looks(old(self)@.ledger, models(c@), now as int),
                ..old(self)@
            }),
            leader(usable(old(self)@.ledger, models(c@), tokens as int, now as int), scores@) == (
            match r {
                Some(i) => Some(i as int),
                None => None,
            }),
            r matches Some(i) ==> i < c@.len(),
    {
        let ghost l0 = self@.ledger;
        let ghost v = models(c@);
        let ghost ok = usable(l0, v, tokens as int, now as int);
        let mut best: Option<usize> = None;
        let mut i: usize = 0;
        while i < c.len()
            invariant
                i <= c@.len(),
                v == models(c@),
                scores@.len() == c@.len(),
                ok == usable(l0, v, tokens as int, now as int),
                self@ == (RouterView {
                    ledger: after_looks(l0, v.take(i as int), now as int),
                    ..old(self)@
                }),
                leader(ok.take(i as int), scores@) == (match best {
                    Some(b) => Some(b as int),
                    None => None,
                }),
                best matches Some(b) ==> b < i,
            decreases c@.len() - i,
        {
            proof {
                assert(ok.take(i + 1).drop_last() =~= ok.take(i as int));
                assert(v.take(i + 1).drop_last() =~= v.take(i as int));
                assert(v.take(i + 1).last() == c@[i as int]@);
                lemma_looks(l0, v.take(i as int), v[i as int], tokens as int, now as int);
            }
            let r = self.ledger.available(&c[i], tokens, now);
            if r.is_ok() {
                let better = match best {
                    None => true,
                    Some(b) => scores[i] > scores[b],
                };
                if better {
                    best = Some(i);
                }
            }
            i += 1;
        }
        assert(ok.take(ok.len() as int) =~= ok);
        assert(v.take(v.len() as int) =~= v);
        best
    }

    /// Picks the best pool model for `need`, skipping `exclude` (`provider/model`
    /// keys). `scores` orders the candidates, as `candidates_for` lists them.
    pub fn pick(
        &mut self,
        registry: &Registry,
        strategy: Strategy,
        need: &Need,
        session_id: &str,
        exclude: &Vec<String>,
        sticky_minutes: u64,
        now: u64,
        scores: &Vec<i64>,
    ) -> (p: Option<Pick>)
        requires
            scores@.len() == candidates(registry@, need@, texts(exclude@)).len(),
            now + sticky_minutes * MINUTE <= u64::MAX,
        ensures
            (final(self)@, pick_view(p)) == picked(
                old(self)@,
                candidates(registry@, need@, texts(exclude@)),
                strategy,
                need@,
                session_id@,
                sticky_minutes as int,
                now as int,
                scores@,
            ),
    {
        let c = candidates_for(registry, need, exclude);
        let ghost v = models(c@);
        let ghost r0 = self@;
        assert(v.len() == c@.len());
        if c.len() == 0 {
            return None;
        }
        let mut keep: Option<usize> = None;
        if sticky_minutes > 0 {
            if let Some(s) = self.sticky.get(session_id) {
                if s.1 > now {
                    keep = Self::find(&c, s.0.as_str());
                }
            }
        }
        if let Some(i) = keep {
            proof {
                assert(v[i as int] == c@[i as int]@);
            }
            if self.ledger.available(&c[i], need.tokens, now).is_ok() {
                return Some(Pick { model: c[i].clone(), reason: "sticky".to_owned() });
            }
        }
        let ghost l1 = self@.ledger;
        proof {
            assert(usable(l1, v, need.tokens as int, now as int) =~= usable(
                r0.ledger,
                v,
                need.tokens as int,
                now as int,
            )) by {
                if keep is Some {
                    assert forall|i: int| 0 <= i < v.len() implies refusal(
                        l1,
                        v[i],
                        need.tokens as int,
                        now as int,
                    ) == refusal(r0.ledger, v[i], need.tokens as int, now as int) by {
                        looking_changes_nothing(
                            r0.ledger,
                            v[keep->0 as int],
                            v[i],
                            need.tokens as int,
                            now as int,
                        );
                    }
                }
            }
        }
        let b = match self.lead(&c, need.tokens, now, scores) {
            Some(b) => b,
            None => {
                return None;
            },
        };
        assert(v[b as int] == c@[b as int]@);
        if sticky_minutes > 0 {
            let key = c[b].key();
            self.sticky.insert(session_id.to_owned(), (key, now + sticky_minutes * MINUTE));
        }
        let effective = match strategy {
            Strategy::Auto => classify(need),
            s => s,
        };
        Some(Pick { model: c[b].clone(), reason: effective.name().to_owned() })
    }
}

// ───────────────────────────── recording ─────────────────────────────

/// A request at `now`, and the tokens that are known of it. It ends a run of
/// failures.
pub open spec fn after_request(l: LedgerView, m: ModelView, tokens: u64, now: u64) -> LedgerView {
    let u = l.usage(m.key()).pruned(now as int);
    l.with(
        m.key(),
        UsageView {
            reqs: u.reqs.push(now),
            toks: if tokens > 0 {
                u.toks.push((now, tokens))
            } else {
                u.toks
            },
            failures: 0,
            ..u
        },
    )
}

/// Tokens learned of after the response.
pub open spec fn after_tokens(l: LedgerView, m: ModelView, tokens: u64, now: u64) -> LedgerView {
    if tokens == 0 {
        l
    } else {
        let u = l.usage(m.key());
        l.with(m.key(), UsageView { toks: u.toks.push((now, tokens)), ..u })
    }
}

/// A measured response: the new averages are kept where there was something to
/// measure. `ttft` and `tps` are the bits of the averages.
pub open spec fn after_latency(
    l: LedgerView,
    m: ModelView,
    ttft_ms: u64,
    output_tokens: u64,
    gen_ms: u64,
    ttft: u64,
    tps: u64,
) -> LedgerView {
    let u = l.usage(m.key());
    l.with(
        m.key(),
        UsageView {
            ttft_bits: if ttft_ms > 0 {
                ttft
            } else {
                u.ttft_bits
            },
            tps_bits: if output_tokens >= 20 && gen_ms > 0 {
                tps
            } else {
                u.tps_bits
            },
            ..u
        },
    )
}

pub open spec fn calmed(u: UsageView) -> UsageView {
    UsageView { cooldown_until: 0, failures: 0, last_error: Seq::empty(), ..u }
}

/// The ledger without any cooldown.
pub open spec fn after_reset(l: LedgerView) -> LedgerView {
    LedgerView { models: l.models.map_values(|u: UsageView| calmed(u)), providers: Map::empty() }
}

impl Router {
    /// Record a completed (or started) request so the windows stay honest.
    pub fn record_request(&mut self, model: &Model, tokens: u64, now: u64)
        ensures
            final(self)@ == (RouterView {
                ledger: after_request(old(self)@.ledger, model@, tokens, now),
                ..old(self)@
            }),
    {
        let key = model.key();
        let mut u = self.ledger.take(key.as_str());
        u.prune(now);
        u.reqs.push_back(now);
        if tokens > 0 {
            u.toks.push_back((now, tokens));
        }
        u.failures = 0;
        proof {
            lemma_put_back(old(self)@.ledger, key@, u@);
        }
        self.ledger.put(key, u);
    }

    /// Add token usage learned after the response finished.
    pub fn record_tokens(&mut self, model: &Model, tokens: u64, now: u64)
        ensures
            final(self)@ == (RouterView {
                ledger: after_tokens(old(self)@.ledger, model@, tokens, now),
                ..old(self)@
            }),
    {
        if tokens == 0 {
            return;
        }
        let key = model.key();
        let mut u = self.ledger.take(key.as_str());
        u.toks.push_back((now, tokens));
        proof {
            lemma_put_back(old(self)@.ledger, key@, u@);
        }
        self.ledger.put(key, u);
    }

    /// Fold a measured response into the model's latency profile. `ttft` and
    /// `tps` are the bits of the new averages.
    pub fn record_latency(
        &mut self,
        model: &Model,
        ttft_ms: u64,
        output_tokens: u64,
        gen_ms: u64,
        ttft: u64,
        tps: u64,
    )
        ensures
            final(self)@ == (RouterView {
                ledger: after_latency(
                    old(self)@.ledger,
                    model@,
                    ttft_ms,
                    output_tokens,
                    gen_ms,
                    ttft,
                    tps,
                ),
                ..old(self)@
            }),
    {
        let key = model.key();
        let mut u = self.ledger.take(key.as_str());
        if ttft_ms > 0 {
            u.ttft_bits = ttft;
        }
        if output_tokens >= 20 && gen_ms > 0 {
            u.tps_bits = tps;
        }
        proof {
            lemma_put_back(old(self)@.ledger, key@, u@);
        }
        self.ledger.put(key, u);
    }

    /// The bits of the averages measured so far of a model.
    pub fn measured(&self, model: &Model) -> (r: (u64, u64))
        ensures
            r.0 == self@.ledger.usage(model@.key()).ttft_bits,
            r.1 == self@.ledger.usage(model@.key()).tps_bits,
    {
        let key = model.key();
        match self.ledger.models.get(key.as_str()) {
            Some(u) => (u.ttft_bits, u.tps_bits),
            None => (0, 0),
        }
    }

    /// Cool a model (or its whole provider) down after a failure. Returns the
    /// cooldown applied, in milliseconds.
    pub fn record_failure(&mut self, model: &Model, err: &LlmError, now: u64) -> (ms: u64)
        requires
            now <= u64::MAX - 2 * DAY,
            old(self)@.ledger.usage(model@.key()).failures < u32::MAX,
        ensures
            final(self)@ == (RouterView {
                ledger: after_failure(old(self)@.ledger, model@, *err, now as int),
                ..old(self)@
            }),
            ms == cooldown(
                *err,
                old(self)@.ledger.usage(model@.key()).failures + 1,
                now as int,
            ),
            (err is RateLimited || (err matches LlmError::Provider { status, .. } && status == 429)) && (contains(
                lowercase(err.text()),
                "per day"@,
            ) || contains(lowercase(err.text()), "daily"@) || contains(lowercase(err.text()), "quota exceeded"@)
                || contains(lowercase(err.text()), "rpd"@)) ==> (now + ms) % DAY as int == 0 && 0 < ms <= DAY,
    {
        proof {
            let rest = (now as int / DAY as int + 1) * DAY - now;
            assert((now + rest) % DAY as int == 0) by (nonlinear_arith)
                requires
                    rest == (now as int / DAY as int + 1) * DAY - now,
                    DAY == 86_400_000,
            ;
        }
        if let LlmError::Authentication { message } = err {
            self.ledger.providers.insert(
                model.provider_id.clone(),
                (now + 60 * MINUTE, message.clone()),
            );
            return 60 * MINUTE;
        }
        if let LlmError::Other { .. } = err {
            return 0;
        }
        let key = model.key();
        let mut u = self.ledger.take(key.as_str());
        u.failures = u.failures + 1;
        let ms = cooldown_of(err, u.failures, now);
        u.cooldown_until = now + ms;
        u.last_error = err.message().clone();
        proof {
            lemma_put_back(old(self)@.ledger, key@, u@);
        }
        self.ledger.put(key, u);
        ms
    }

    pub fn clear_sticky(&mut self, session_id: &str)
        ensures
            final(self)@ == (RouterView {
                sticky: old(self)@.sticky.remove(session_id@),
                ..old(self)@
            }),
    {
        let _ = self.sticky.remove(session_id);
    }
}

// ───────────────────────────── status ─────────────────────────────

pub struct ModelUsageView {
    pub provider: Seq<char>,
    pub model: Seq<char>,
    pub rpm_used: u64,
    pub rpd_used: u64,
    pub tpm_used: u64,
    pub tpd_used: u64,
    pub cooldown_secs: u64,
    pub last_error: Seq<char>,
    pub ttft_ms: u64,
    pub tps: u64,
}

impl View for ModelUsage {
    type V = ModelUsageView;

    open spec fn view(&self) -> ModelUsageView {
        ModelUsageView {
            provider: self.provider@,
            model: self.model@,
            rpm_used: self.rpm_used,
            rpd_used: self.rpd_used,
            tpm_used: self.tpm_used,
            tpd_used: self.tpd_used,
            cooldown_secs: self.cooldown_secs,
            last_error: self.last_error@,
            ttft_ms: self.ttft_ms,
            tps: self.tps,
        }
    }
}

/// The models of one provider that belong to the pool, each with the provider's id.
pub open spec fn pool_members(p: ProviderView) -> Seq<(Seq<char>, ModelView)> {
    let own = values(p.models).filter(|m: ModelView| m.pool is Some);
    Seq::new(own.len(), |i: int| (p.id, own[i]))
}

/// Every model that belongs to the pool, connected or not.
pub open spec fn listed(reg: Seq<(Seq<char>, ProviderView)>) -> Seq<(Seq<char>, ModelView)>
    decreases reg.len(),
{
    if reg.len() == 0 {
        Seq::empty()
    } else {
        let p = reg.last().1;
        let before = listed(reg.drop_last());
        if p.id == POOL_PROVIDER@ {
            before
        } else {
            before + pool_members(p)
        }
    }
}

/// Whole seconds until both the model and its provider are out of cooldown.
pub open spec fn cooldown_secs(l: LedgerView, provider: Seq<char>, m: ModelView, now: int) -> int {
    let until = greatest(
        l.usage(m.key()).cooldown_until as int,
        l.provider_until(provider) as int,
    );
    if until > now {
        (until - now) / 1000
    } else {
        0
    }
}

pub open spec fn usage_row(l: LedgerView, provider: Seq<char>, m: ModelView, now: int) -> ModelUsageView {
    let u = l.usage(m.key());
    let cd = cooldown_secs(l, provider, m, now);
    ModelUsageView {
        provider,
        model: m.id,
        rpm_used: count_from(u.reqs, now - MINUTE) as u64,
        rpd_used: count_from(u.reqs, now - DAY) as u64,
        tpm_used: least(tokens_from(u.toks, now - MINUTE) as int, u64::MAX as int) as u64,
        tpd_used: least(tokens_from(u.toks, now - DAY) as int, u64::MAX as int) as u64,
        cooldown_secs: cd as u64,
        last_error: if cd > 0 {
            u.last_error
        } else {
            Seq::empty()
        },
        ttft_ms: whole(u.ttft_bits) as u64,
        tps: whole(u.tps_bits) as u64,
    }
}

/// The ledger after the rows were drawn: every usage that was read is pruned.
pub open spec fn after_rows(l: LedgerView, rows: Seq<(Seq<char>, ModelView)>, now: int) -> LedgerView
    decreases rows.len(),
{
    if rows.len() == 0 {
        l
    } else {
        let before = after_rows(l, rows.drop_last(), now);
        let key = rows.last().1.key();
        before.with(key, before.usage(key).pruned(now))
    }
}

proof fn lemma_row_after_rows(
    l: LedgerView,
    rows: Seq<(Seq<char>, ModelView)>,
    provider: Seq<char>,
    m: ModelView,
    now: int,
)
    ensures
        usage_row(after_rows(l, rows, now), provider, m, now) == usage_row(l, provider, m, now),
    decreases rows.len(),
{
    if rows.len() > 0 {
        lemma_row_after_rows(l, rows.drop_last(), provider, m, now);
        let before = after_rows(l, rows.drop_last(), now);
        pruning_keeps_windows(before.usage(m.key()), now, now - MINUTE);
        pruning_keeps_windows(before.usage(m.key()), now, now - DAY);
    }
}

pub open spec fn usage_rows(
    l: LedgerView,
    rows: Seq<(Seq<char>, ModelView)>,
    now: int,
) -> Seq<ModelUsageView> {
    Seq::new(rows.len(), |i: int| usage_row(l, rows[i].0, rows[i].1, now))
}

pub open spec fn usage_views(v: Seq<ModelUsage>) -> Seq<ModelUsageView> {
    Seq::new(v.len(), |i: int| v[i]@)
}

fn capped(n: u128) -> (r: u64)
    ensures
        r == least(n as int, u64::MAX as int),
{
    if n < u64::MAX as u128 {
        n as u64
    } else {
        u64::MAX
    }
}

impl Router {
    fn row(&mut self, provider: &str, m: &Model, now: u64) -> (r: ModelUsage)
        ensures
            r@ == usage_row(old(self)@.ledger, provider@, m@, now as int),
            final(self)@ == (RouterView {
                ledger: old(self)@.ledger.with(
                    m@.key(),
                    old(self)@.ledger.usage(m@.key()).pruned(now as int),
                ),
                ..old(self)@
            }),
    {
        let provider_cd = self.ledger.provider_until(provider);
        let key = m.key();
        let mut u = self.ledger.take(key.as_str());
        proof {
            pruning_keeps_windows(u@, now as int, now - MINUTE);
            pruning_keeps_windows(u@, now as int, now - DAY);
        }
        u.prune(now);
        let until: u64 = if u.cooldown_until > provider_cd {
            u.cooldown_until
        } else {
            provider_cd
        };
        let cd: u64 = if until > now {
            (until - now) / 1000
        } else {
            0
        };
        let r = ModelUsage {
            provider: provider.to_owned(),
            model: m.id.clone(),
            rpm_used: u.count_since(now, MINUTE),
            rpd_used: u.count_since(now, DAY),
            tpm_used: capped(u.tokens_since(now, MINUTE)),
            tpd_used: capped(u.tokens_since(now, DAY)),
            cooldown_secs: cd,
            last_error: if cd > 0 {
                u.last_error.clone()
            } else {
                String::new()
            },
            ttft_ms: whole_of(u.ttft_bits),
            tps: whole_of(u.tps_bits),
        };
        proof {
            lemma_put_back(old(self)@.ledger, key@, u@);
        }
        self.ledger.put(key, u);
        r
    }

    /// Snapshot for status displays.
    pub fn usage(&mut self, registry: &Registry, now: u64) -> (r: Vec<ModelUsage>)
        ensures
            usage_views(r@) == usage_rows(old(self)@.ledger, listed(registry@), now as int),
            final(self)@ == (RouterView {
                ledger: after_rows(old(self)@.ledger, listed(registry@), now as int),
                ..old(self)@
            }),
    {
        let ghost l0 = self@.ledger;
        let ghost reg = registry@;
        let ghost pred = |m: ModelView| m.pool is Some;
        let mut out: Vec<ModelUsage> = Vec::new();
        let n = registry.providers.len();
        let mut i: usize = 0;
        let ghost mut rows: Seq<(Seq<char>, ModelView)> = Seq::empty();
        assert(usage_views(out@) =~= usage_rows(l0, rows, now as int));
        while i < n
            invariant
                i <= n,
                n == reg.len(),
                reg == registry@,
                pred == (|m: ModelView| m.pool is Some),
                rows == listed(reg.take(i as int)),
                usage_views(out@) == usage_rows(l0, rows, now as int),
                self@ == (RouterView { ledger: after_rows(l0, rows, now as int), ..old(self)@ }),
            decreases n - i,
        {
            let p = registry.providers.value(i);
            assert(reg.take(i + 1).drop_last() =~= reg.take(i as int));
            assert(reg.take(i + 1).last() == reg[i as int]);
            if !same(p.id.as_str(), POOL_PROVIDER) {
                let k = p.models.len();
                let ghost all = values(p@.models);
                let ghost start = rows;
                let ghost mut own: Seq<ModelView> = Seq::empty();
                let mut j: usize = 0;
                proof {
                    reveal(Seq::filter);
                    assert(all.take(0).filter(pred) =~= own);
                }
                while j < k
                    invariant
                        j <= k,
                        k == all.len(),
                        all == values(p@.models),
                        pred == (|m: ModelView| m.pool is Some),
                        own == all.take(j as int).filter(pred),
                        rows == start + Seq::new(own.len(), |x: int| (p@.id, own[x])),
                        usage_views(out@) == usage_rows(l0, rows, now as int),
                        self@ == (RouterView {
                            ledger: after_rows(l0, rows, now as int),
                            ..old(self)@
                        }),
                    decreases k - j,
                {
                    let m = p.models.value(j);
                    proof {
                        reveal(Seq::filter);
                        assert(all.take(j + 1).drop_last() =~= all.take(j as int));
                        assert(all.take(j + 1).last() == m@);
                        lemma_row_after_rows(l0, rows, p@.id, m@, now as int);
                    }
                    if m.pool.is_some() {
                        let ghost was = usage_views(out@);
                        let row = self.row(p.id.as_str(), m, now);
                        let ghost rv = row@;
                        out.push(row);
                        proof {
                            let next = rows.push((p@.id, m@));
                            assert(next.drop_last() =~= rows);
                            assert(usage_views(out@) =~= was.push(rv));
                            assert(usage_rows(l0, next, now as int) =~= usage_rows(
                                l0,
                                rows,
                                now as int,
                            ).push(rv));
                            own = own.push(m@);
                            rows = next;
                            assert(rows =~= start + Seq::new(own.len(), |x: int| (p@.id, own[x])));
                        }
                    }
                    j += 1;
                }
                assert(all.take(k as int) =~= all);
                assert(rows =~= start + pool_members(p@));
            }
            i += 1;
        }
        assert(reg.take(n as int) =~= reg);
        out
    }

    /// Drop every cooldown (usage windows are kept so caps stay honest).
    pub fn reset_cooldowns(&mut self)
        ensures
            final(self)@ == (RouterView { ledger: after_reset(old(self)@.ledger), ..old(self)@ }),
    {
        self.ledger.providers = Table::new();
        let n = self.ledger.models.len();
        let keys = self.ledger.models.keys();
        let ghost m0 = self.ledger.models@;
        let ghost e0 = self.ledger.models.entries();
        proof {
            assert forall|a: int, b: int| 0 <= a < b < e0.len() implies #[trigger] e0[a].0
                != #[trigger] e0[b].0 by {
                lemma_lex_irreflexive(e0[a].0);
            }
        }
        let mut i: usize = 0;
        while i < keys.len()
            invariant
                i <= keys@.len(),
                keys@.len() == e0.len(),
                forall|j: int| 0 <= j < keys@.len() ==> (#[trigger] keys@[j])@ == e0[j].0,
                forall|j: int| 0 <= j < e0.len() ==> m0.contains_key(#[trigger] e0[j].0),
                forall|a: int, b: int|
                    0 <= a < b < e0.len() ==> #[trigger] e0[a].0 != #[trigger] e0[b].0,
                self.ledger.models@.dom() == m0.dom(),
                forall|j: int|
                    0 <= j < i ==> self.ledger.models@[#[trigger] e0[j].0] == calmed(m0[e0[j].0]),
                forall|j: int|
                    i <= j < e0.len() ==> self.ledger.models@[#[trigger] e0[j].0] == m0[e0[j].0],
                self.ledger.providers@ == Map::<Seq<char>, (u64, Seq<char>)>::empty(),
                self.sticky@ == old(self).sticky@,
            decreases keys@.len() - i,
        {
            let mut u = self.ledger.take(keys[i].as_str());
            u.cooldown_until = 0;
            u.failures = 0;
            u.last_error = String::new();
            self.ledger.put(keys[i].clone(), u);
            assert(self.ledger.models@.dom() =~= m0.dom());
            i += 1;
        }
        proof {
            let m = self.ledger.models@;
            let want = m0.map_values(|u: UsageView| calmed(u));
            assert forall|k: Seq<char>| m.contains_key(k) implies m[k] == want[k] by {
                let j = choose|j: int| 0 <= j < e0.len() && e0[j].0 == k;
                assert(e0[j].0 == k);
            }
            assert(m =~= want);
        }
    }
}

// ───────────────────────────── laws ─────────────────────────────

proof fn lemma_power_positive(k: nat)
    ensures
        power(k) >= 1,
    decreases k,
{
    if k > 0 {
        lemma_power_positive((k - 1) as nat);
    }
}

proof fn lemma_backoff_positive(base: int, failures: int, most: int, cap: int)
    requires
        base > 0,
        cap > 0,
        failures >= 0,
        most >= 0,
    ensures
        0 < backoff(base, failures, most, cap) <= cap,
{
    let p = power(least(failures, most) as nat);
    lemma_power_positive(least(failures, most) as nat);
    assert(base * p >= 1) by (nonlinear_arith)
        requires
            base > 0,
            p >= 1,
    ;
}

/// Every failure that says something of the model or its provider leads to a
/// cooldown, and none to one of more than a day.
pub proof fn cooldown_is_positive(err: LlmError, failures: int, now: int)
    requires
        failures >= 0,
        now >= 0,
        !(err is Other),
    ensures
        0 < cooldown(err, failures, now) <= DAY,
{
    let retry = match err {
        LlmError::RateLimited { retry_after_ms, .. } => retry_after_ms,
        LlmError::Provider { retry_after_ms, .. } => retry_after_ms,
        _ => None,
    };
    let base = match retry {
        Some(ms) => greatest(ms as int, 60_000),
        None => 60_000,
    };
    lemma_backoff_positive(base, failures, 6, 60 * MINUTE);
    lemma_backoff_positive(30_000, failures, 5, 15 * MINUTE);
    lemma_backoff_positive(30_000, failures, 4, 10 * MINUTE);
}

/// A model that failed is not used again before its cooldown is over.
pub proof fn failed_model_is_left_alone(
    l: LedgerView,
    m: ModelView,
    err: LlmError,
    now: int,
    later: int,
    tokens: int,
)
    requires
        0 <= now <= u64::MAX - 2 * DAY,
        l.usage(m.key()).failures < u32::MAX,
        err.blames_model(),
        now <= later < now + cooldown(err, l.usage(m.key()).failures + 1, now),
    ensures
        refusal(after_failure(l, m, err, now), m, tokens, later) is Some,
{
    cooldown_is_positive(err, l.usage(m.key()).failures + 1, now);
}

/// After a failed login no model of that provider is used for an hour.
pub proof fn failed_login_rests_the_provider(
    l: LedgerView,
    m: ModelView,
    other: ModelView,
    err: LlmError,
    now: int,
    later: int,
    tokens: int,
)
    requires
        0 <= now <= u64::MAX - 2 * DAY,
        err is Authentication,
        other.provider_id == m.provider_id,
        now <= later < now + 60 * MINUTE,
    ensures
        refusal(after_failure(l, m, err, now), other, tokens, later) == Some(
            Refusal::ProviderCooldown,
        ),
{
}

/// A failure of one model leaves every model under another key as it was, but for
/// a failed login, which leaves the models of other providers as they were.
pub proof fn failure_is_local(
    l: LedgerView,
    m: ModelView,
    other: ModelView,
    err: LlmError,
    now: int,
    later: int,
    tokens: int,
)
    requires
        err is Authentication ==> other.provider_id != m.provider_id,
        !(err is Authentication) ==> other.key() != m.key(),
    ensures
        refusal(after_failure(l, m, err, now), other, tokens, later) == refusal(
            l,
            other,
            tokens,
            later,
        ),
        standing(after_failure(l, m, err, now), other, later) == standing(l, other, later),
{
}

/// Once cooldowns are dropped nothing cools down, and the windows count what
/// they counted.
pub proof fn reset_keeps_windows(l: LedgerView, m: ModelView, now: int)
    requires
        now >= 0,
    ensures
        after_reset(l).provider_until(m.provider_id) <= now,
        after_reset(l).usage(m.key()).cooldown_until <= now,
        after_reset(l).usage(m.key()).failures == 0,
        after_reset(l).usage(m.key()).reqs == l.usage(m.key()).reqs,
        after_reset(l).usage(m.key()).toks == l.usage(m.key()).toks,
{
}

/// A recorded request counts in every window of a day or less that it falls in.
pub proof fn request_counts(l: LedgerView, m: ModelView, tokens: u64, now: u64, since: int)
    requires
        now - DAY <= since <= now,
    ensures
        count_from(after_request(l, m, tokens, now).usage(m.key()).reqs, since) == count_from(
            l.usage(m.key()).reqs,
            since,
        ) + 1,
        tokens_from(after_request(l, m, tokens, now).usage(m.key()).toks, since) == tokens_from(
            l.usage(m.key()).toks,
            since,
        ) + tokens,
{
    let u = l.usage(m.key());
    let v = u.pruned(now as int);
    pruning_keeps_windows(u, now as int, since);
    assert(v.reqs.push(now).drop_last() =~= v.reqs);
    assert(v.toks.push((now, tokens)).drop_last() =~= v.toks);
}

/// With a limit of requests per minute used up by one more request, the model
/// is refused for it.
pub proof fn request_uses_up_rpm(l: LedgerView, m: ModelView, tokens: u64, now: u64, prompt: int)
    requires
        m.pool is Some,
        m.pool->0.rpm is Some,
        count_from(l.usage(m.key()).reqs, now - MINUTE) + 1 >= m.pool->0.rpm->0,
    ensures
        refusal(after_request(l, m, tokens, now), m, prompt, now as int) is Some,
{
    request_counts(l, m, tokens, now, now - MINUTE);
}

/// A pick that is not held over is one of the candidates, usable, and no usable
/// candidate scores higher. None is made exactly where no candidate is usable.
pub proof fn pick_is_usable(
    r: RouterView,
    c: Seq<ModelView>,
    strategy: Strategy,
    need: NeedView,
    session: Seq<char>,
    sticky_minutes: int,
    now: int,
    scores: Seq<i64>,
)
    ensures
        match picked(r, c, strategy, need, session, sticky_minutes, now, scores).1 {
            Some(p) => exists|i: int|
                0 <= i < c.len() && (#[trigger] c[i]) == p.0 && refusal(
                    r.ledger,
                    c[i],
                    need.tokens as int,
                    now,
                ) is None && (p.1 == "sticky"@ || forall|j: int|
                    0 <= j < c.len() && refusal(
                        r.ledger,
                        #[trigger] c[j],
                        need.tokens as int,
                        now,
                    ) is None ==> scores[j] <= scores[i]),
            None => forall|j: int|
                0 <= j < c.len() ==> refusal(r.ledger, #[trigger] c[j], need.tokens as int, now)
                    is Some,
        },
{
    let ok = usable(r.ledger, c, need.tokens as int, now);
    leader_is_first_best(ok, scores);
    if r.sticky.contains_key(session) {
        lemma_position(c, r.sticky[session].0);
    }
    assert(forall|j: int|
        0 <= j < c.len() ==> #[trigger] ok[j] == (refusal(r.ledger, c[j], need.tokens as int, now)
            is None));
    match picked(r, c, strategy, need, session, sticky_minutes, now, scores).1 {
        Some(p) => {
            let keep = if sticky_minutes > 0 {
                kept(r, c, session, now)
            } else {
                None
            };
            if keep is Some && refusal(r.ledger, c[keep->0], need.tokens as int, now) is None {
                assert(c[keep->0] == p.0);
            } else {
                let b = leader(ok, scores)->0;
                assert(ok[b]);
                assert forall|j: int|
                    0 <= j < c.len() && refusal(
                        r.ledger,
                        #[trigger] c[j],
                        need.tokens as int,
                        now,
                    ) is None implies scores[j] <= scores[b] by {
                    assert(ok[j]);
                }
                assert(c[b] == p.0);
            }
        },
        None => {
            assert forall|j: int| 0 <= j < c.len() implies refusal(
                r.ledger,
                #[trigger] c[j],
                need.tokens as int,
                now,
            ) is Some by {
                assert(!ok[j]);
            }
        },
    }
}

/// While the model stays usable, and until the time is up, a session that picked
/// a model is given the same one again, whatever the strategy and the scores.
pub proof fn session_stays_on_its_model(
    r: RouterView,
    c: Seq<ModelView>,
    first: Strategy,
    second: Strategy,
    need: NeedView,
    session: Seq<char>,
    sticky_minutes: int,
    now: int,
    later: int,
    scores: Seq<i64>,
    others: Seq<i64>,
)
    requires
        sticky_minutes > 0,
        now >= 0,
        now + sticky_minutes * MINUTE <= u64::MAX,
        now <= later < now + sticky_minutes * MINUTE,
        forall|i: int, j: int|
            0 <= i < j < c.len() ==> (#[trigger] c[i]).key() != (#[trigger] c[j]).key(),
    ensures
        ({
            let (r1, p1) = picked(r, c, first, need, session, sticky_minutes, now, scores);
            let (r2, p2) = picked(r1, c, second, need, session, sticky_minutes, later, others);
            p1 matches Some(p) ==> p.1 != "sticky"@ && refusal(
                r1.ledger,
                p.0,
                need.tokens as int,
                later,
            ) is None ==> p2 == Some((p.0, "sticky"@))
        }),
{
    let ok = usable(r.ledger, c, need.tokens as int, now);
    leader_is_first_best(ok, scores);
    let (r1, p1) = picked(r, c, first, need, session, sticky_minutes, now, scores);
    if let Some(p) = p1 {
        if p.1 != "sticky"@ {
            let b = leader(ok, scores)->0;
            lemma_position(c, c[b].key());
            let i = position(c, c[b].key())->0;
            assert(c[b] == p.0);
            if i < b {
                assert(c[i].key() != c[b].key());
            } else if b < i {
                assert(c[b].key() != c[i].key());
            }
        }
    }
}

/// What a router wrote down of its ledger gives the next one the same usage and
/// the same cooldowns; which models sessions stuck to is not carried over.
pub proof fn ledger_survives_a_restart(
    before: RouterView,
    after: RouterView,
    used: Seq<(Seq<char>, UsageView)>,
    resting: Seq<(Seq<char>, (u64, Seq<char>))>,
    reg: Seq<(Seq<char>, ProviderView)>,
    c: Seq<ModelView>,
    m: ModelView,
    session: Seq<char>,
    tokens: int,
    now: int,
)
    requires
        before.ledger.models == as_map(used),
        before.ledger.providers == as_map(resting),
        after.ledger.models == as_map(used),
        after.ledger.providers == as_map(resting),
        after.sticky == Map::<Seq<char>, (Seq<char>, u64)>::empty(),
    ensures
        after.ledger == before.ledger,
        usage_rows(after.ledger, listed(reg), now) == usage_rows(before.ledger, listed(reg), now),
        refusal(after.ledger, m, tokens, now) == refusal(before.ledger, m, tokens, now),
        standing(after.ledger, m, now) == standing(before.ledger, m, now),
        kept(after, c, session, now) is None,
{
    assert(after.ledger =~= before.ledger);
}

/// With an empty ledger nothing was used, and nothing cools down.
pub proof fn empty_ledger_has_no_usage(l: LedgerView, provider: Seq<char>, m: ModelView, tokens: int, now: int)
    requires
        l.models == Map::<Seq<char>, UsageView>::empty(),
        l.providers == Map::<Seq<char>, (u64, Seq<char>)>::empty(),
        now >= 0,
    ensures
        ({
            let row = usage_row(l, provider, m, now);
            &&& row.rpm_used == 0 && row.rpd_used == 0 && row.tpm_used == 0 && row.tpd_used == 0
            &&& row.cooldown_secs == 0 && row.last_error.len() == 0
        }),
        refusal(l, m, tokens, now) != Some(Refusal::Cooldown),
        refusal(l, m, tokens, now) != Some(Refusal::ProviderCooldown),
{
}

/// A cleared session sticks to nothing.
pub proof fn cleared_session_sticks_to_nothing(r: RouterView, c: Seq<ModelView>, session: Seq<char>, now: int)
    ensures
        kept(RouterView { sticky: r.sticky.remove(session), ..r }, c, session, now) is None,
{
}

proof fn lemma_filter_members(s: Seq<ModelView>, pred: spec_fn(ModelView) -> bool, m: ModelView)
    ensures
        s.filter(pred).contains(m) <==> s.contains(m) && pred(m),
    decreases s.len(),
{
    reveal(Seq::filter);
    if s.len() > 0 {
        let d = s.drop_last();
        lemma_filter_members(d, pred, m);
        assert(s =~= d.push(s.last()));
        lemma_push_members(d, s.last(), m);
        lemma_push_members(d.filter(pred), s.last(), m);
    }
}

proof fn lemma_push_members(s: Seq<ModelView>, x: ModelView, m: ModelView)
    ensures
        s.push(x).contains(m) <==> s.contains(m) || m == x,
{
    if s.contains(m) {
        let i = choose|i: int| 0 <= i < s.len() && s[i] == m;
        assert(s.push(x)[i] == m);
    }
    if m == x {
        assert(s.push(x)[s.len() as int] == m);
    }
    if s.push(x).contains(m) && m != x {
        let i = choose|i: int| 0 <= i < s.push(x).len() && s.push(x)[i] == m;
        assert(s[i] == m);
    }
}

/// Whether provider `i` offers `m`.
pub open spec fn offers(reg: Seq<(Seq<char>, ProviderView)>, i: int, m: ModelView) -> bool {
    let p = reg[i].1;
    0 <= i < reg.len() && p.connected && p.id != POOL_PROVIDER@ && values(p.models).contains(m)
}

proof fn lemma_offered(reg: Seq<(Seq<char>, ProviderView)>, m: ModelView)
    ensures
        offered(reg).contains(m) <==> exists|i: int| offers(reg, i, m),
    decreases reg.len(),
{
    if reg.len() > 0 {
        let d = reg.drop_last();
        let k = reg.len() - 1;
        lemma_offered(d, m);
        assert forall|i: int| offers(d, i, m) implies offers(reg, i, m) by {
            assert(d[i] == reg[i]);
        }
        if exists|i: int| offers(reg, i, m) {
            let i = choose|i: int| offers(reg, i, m);
            if i < k {
                assert(d[i] == reg[i]);
                assert(offers(d, i, m));
            }
        }
        let p = reg.last().1;
        if p.connected && p.id != POOL_PROVIDER@ {
            let a = offered(d);
            let b = values(p.models);
            assert((a + b).contains(m) <==> a.contains(m) || b.contains(m)) by {
                if a.contains(m) {
                    let i = choose|i: int| 0 <= i < a.len() && a[i] == m;
                    assert((a + b)[i] == m);
                }
                if b.contains(m) {
                    let i = choose|i: int| 0 <= i < b.len() && b[i] == m;
                    assert((a + b)[a.len() + i] == m);
                }
                if (a + b).contains(m) {
                    let i = choose|i: int| 0 <= i < (a + b).len() && (a + b)[i] == m;
                    if i < a.len() {
                        assert(a[i] == m);
                    } else {
                        assert(b[i - a.len()] == m);
                    }
                }
            }
            assert(b.contains(m) <==> offers(reg, k, m));
        } else {
            assert(!offers(reg, k, m));
        }
    }
}

/// A candidate is offered by a connected provider that is not the pool's own,
/// and suits the request; every such model is a candidate.
pub proof fn candidates_suit(
    reg: Seq<(Seq<char>, ProviderView)>,
    need: NeedView,
    exclude: Seq<Seq<char>>,
    m: ModelView,
)
    ensures
        candidates(reg, need, exclude).contains(m) <==> suits(m, need, exclude) && exists|i: int|
            offers(reg, i, m),
{
    lemma_filter_members(offered(reg), |m: ModelView| suits(m, need, exclude), m);
    lemma_offered(reg, m);
}

} // verus!
