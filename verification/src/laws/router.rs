//! What the pool's router keeps to: limits, cooldowns and picks.

use crate::provider::{ModelView, ProviderView, Strategy, POOL_PROVIDER};
use crate::router::{
    after_failure, after_latency, after_request, after_reset, after_tokens, auto_strategy, candidates, cooldown,
    kept, listed, picked, pool_members, position, power, refusal, request_counts, standing, usage_row, values,
    weights, LedgerView, LlmError, NeedView, Refusal, RouterView,
};
use crate::text::{contains, lowercase};
use crate::usage::{count_from, tokens_from, DAY, MINUTE};
use vstd::prelude::*;

verus! {

// ───────────────────────────── windows ─────────────────────────────

/// A window counts the latest requests, as far back as they are not older than its
/// start.
pub proof fn windows_count_the_latest_requests(reqs: Seq<u64>, since: int)
    ensures
        count_from(reqs, since) <= reqs.len(),
        forall|i: int|
            reqs.len() - count_from(reqs, since) <= i < reqs.len() ==> #[trigger] reqs[i] >= since,
        count_from(reqs, since) < reqs.len() ==> reqs[reqs.len() - count_from(reqs, since) - 1] < since,
    decreases reqs.len(),
{
    if reqs.len() > 0 && reqs.last() >= since {
        let d = reqs.drop_last();
        windows_count_the_latest_requests(d, since);
        assert forall|i: int| reqs.len() - count_from(reqs, since) <= i < reqs.len() implies #[trigger] reqs[i]
            >= since by {
            if i < d.len() {
                assert(d[i] >= since);
            }
        }
    }
}

/// One more use adds its tokens to every window that it lies in, and empties every
/// other.
pub proof fn windows_add_up_tokens(toks: Seq<(u64, u64)>, at: u64, n: u64, since: int)
    ensures
        tokens_from(Seq::empty(), since) == 0,
        at >= since ==> tokens_from(toks.push((at, n)), since) == tokens_from(toks, since) + n,
        at < since ==> tokens_from(toks.push((at, n)), since) == 0,
{
    assert(toks.push((at, n)).drop_last() =~= toks);
}

/// A longer window holds no less.
pub proof fn longer_windows_hold_more(reqs: Seq<u64>, toks: Seq<(u64, u64)>, early: int, late: int)
    requires
        early <= late,
    ensures
        count_from(reqs, late) <= count_from(reqs, early),
        tokens_from(toks, late) <= tokens_from(toks, early),
    decreases reqs.len() + toks.len(),
{
    if reqs.len() > 0 && reqs.last() >= late {
        longer_windows_hold_more(reqs.drop_last(), toks, early, late);
    } else if toks.len() > 0 && toks.last().0 >= late {
        longer_windows_hold_more(reqs, toks.drop_last(), early, late);
    }
}

// ───────────────────────────── status ─────────────────────────────

/// The status of a model shows the requests and tokens of the last minute and of
/// the last day, and these are what its limits are held against: where neither it
/// nor its provider cools down, it can be used exactly where each limit that it
/// declares leaves room.
pub proof fn status_agrees_with_limits(l: LedgerView, m: ModelView, tokens: int, now: int)
    requires
        tokens >= 0,
        l.usage(m.key()).reqs.len() <= u64::MAX,
        tokens_from(l.usage(m.key()).toks, now - 86_400_000) <= u64::MAX,
    ensures
        ({
            let row = usage_row(l, m.provider_id, m, now);
            let u = l.usage(m.key());
            &&& row.provider == m.provider_id && row.model == m.id
            &&& row.rpm_used == count_from(u.reqs, now - 60_000)
            &&& row.rpd_used == count_from(u.reqs, now - 86_400_000)
            &&& row.tpm_used == tokens_from(u.toks, now - 60_000)
            &&& row.tpd_used == tokens_from(u.toks, now - 86_400_000)
            &&& row.rpm_used <= row.rpd_used
            &&& row.tpm_used <= row.tpd_used
            &&& m.pool is Some && l.provider_until(m.provider_id) <= now && u.cooldown_until <= now ==> {
                let rpm_left = m.pool->0.rpm matches Some(n) ==> row.rpm_used < n;
                let rpd_left = m.pool->0.rpd matches Some(n) ==> row.rpd_used < n;
                let tpm_left = m.pool->0.tpm matches Some(n) ==> row.tpm_used + tokens <= n;
                let tpd_left = m.pool->0.tpd matches Some(n) ==> row.tpd_used + tokens <= n;
                &&& refusal(l, m, tokens, now) is None <==> rpm_left && rpd_left && tpm_left && tpd_left
                &&& refusal(l, m, tokens, now) == Some(Refusal::Rpm) <==> !rpm_left
                &&& refusal(l, m, tokens, now) == Some(Refusal::Rpd) <==> rpm_left && !rpd_left
                &&& refusal(l, m, tokens, now) == Some(Refusal::Tpm) <==> rpm_left && rpd_left && !tpm_left
                &&& refusal(l, m, tokens, now) == Some(Refusal::Tpd) <==> rpm_left && rpd_left && tpm_left
                    && !tpd_left
            }
        }),
{
    let u = l.usage(m.key());
    longer_windows_hold_more(u.reqs, u.toks, now - 86_400_000, now - 60_000);
    windows_count_the_latest_requests(u.reqs, now - 60_000);
    windows_count_the_latest_requests(u.reqs, now - 86_400_000);
}

/// What a model can still take is told by the same windows.
pub proof fn standing_agrees_with_limits(l: LedgerView, m: ModelView, now: int)
    requires
        m.pool is Some,
        l.usage(m.key()).reqs.len() <= u64::MAX,
        tokens_from(l.usage(m.key()).toks, now - 86_400_000) <= u64::MAX,
    ensures
        ({
            let s = standing(l, m, now);
            let row = usage_row(l, m.provider_id, m, now);
            let info = m.pool->0;
            &&& s.rpm == (match info.rpm {
                Some(n) => Some((row.rpm_used, n)),
                None => None,
            })
            &&& s.rpd == (match info.rpd {
                Some(n) => Some((row.rpd_used, n)),
                None => None,
            })
            &&& s.tpm == (match info.tpm {
                Some(n) => Some((row.tpm_used, n)),
                None => None,
            })
            &&& s.tpd == (match info.tpd {
                Some(n) => Some((row.tpd_used, n)),
                None => None,
            })
            &&& s.failures == l.usage(m.key()).failures
            &&& s.ttft_bits == l.usage(m.key()).ttft_bits
            &&& s.tps_bits == l.usage(m.key()).tps_bits
        }),
{
    let u = l.usage(m.key());
    longer_windows_hold_more(u.reqs, u.toks, now - 86_400_000, now - 60_000);
}

/// A cooling model or provider cannot be used, the provider first; nor can a model
/// outside the pool.
pub proof fn cooldowns_are_kept(l: LedgerView, m: ModelView, tokens: int, now: int)
    ensures
        l.provider_until(m.provider_id) > now <==> refusal(l, m, tokens, now) == Some(
            Refusal::ProviderCooldown,
        ),
        l.provider_until(m.provider_id) <= now && m.pool is None ==> refusal(l, m, tokens, now) == Some(
            Refusal::NotInPool,
        ),
        l.provider_until(m.provider_id) <= now && m.pool is Some ==> (l.usage(m.key()).cooldown_until
            > now <==> refusal(l, m, tokens, now) == Some(Refusal::Cooldown)),
{
}

/// The seconds that the status shows are those until both the model and its
/// provider are out of cooldown; the last error is shown while there are any.
pub proof fn status_counts_down(l: LedgerView, provider: Seq<char>, m: ModelView, now: int)
    requires
        0 <= now,
    ensures
        ({
            let secs = usage_row(l, provider, m, now).cooldown_secs as int;
            let model_until = l.usage(m.key()).cooldown_until as int;
            let provider_until = l.provider_until(provider) as int;
            &&& model_until <= now && provider_until <= now ==> secs == 0
            &&& model_until > now || provider_until > now ==> {
                &&& now + secs * 1000 <= model_until || now + secs * 1000 <= provider_until
                &&& model_until < now + (secs + 1) * 1000
                &&& provider_until < now + (secs + 1) * 1000
            }
            &&& usage_row(l, provider, m, now).last_error == (if secs > 0 {
                l.usage(m.key()).last_error
            } else {
                Seq::empty()
            })
        }),
{
}

/// The status lists the pool models of every provider but the pool itself.
pub proof fn status_lists_the_pool(reg: Seq<(Seq<char>, ProviderView)>, id: Seq<char>, m: ModelView)
    ensures
        listed(reg).contains((id, m)) <==> m.pool is Some && exists|i: int|
            0 <= i < reg.len() && (#[trigger] reg[i]).1.id == id && id != POOL_PROVIDER@ && values(
                reg[i].1.models,
            ).contains(m),
    decreases reg.len(),
{
    let all = listed(reg);
    if reg.len() > 0 {
        let d = reg.drop_last();
        let p = reg.last().1;
        status_lists_the_pool(d, id, m);
        let before = listed(d);
        let own = pool_members(p);
        let pred = |x: ModelView| x.pool is Some;
        let kept = values(p.models).filter(pred);
        assert(own.contains((id, m)) <==> id == p.id && m.pool is Some && values(p.models).contains(m)) by {
            lemma_filtered(values(p.models), pred, m);
            if own.contains((id, m)) {
                let i = choose|i: int| 0 <= i < own.len() && own[i] == (id, m);
                assert(kept[i] == m);
            }
            if id == p.id && kept.contains(m) {
                let i = choose|i: int| 0 <= i < kept.len() && kept[i] == m;
                assert(own[i] == (id, m));
            }
        }
        if p.id != POOL_PROVIDER@ {
            assert(all == before + own);
            if before.contains((id, m)) {
                let i = choose|i: int| 0 <= i < before.len() && before[i] == (id, m);
                assert(all[i] == (id, m));
            }
            if own.contains((id, m)) {
                let i = choose|i: int| 0 <= i < own.len() && own[i] == (id, m);
                assert(all[before.len() + i] == (id, m));
            }
            if all.contains((id, m)) {
                let i = choose|i: int| 0 <= i < all.len() && all[i] == (id, m);
                if i < before.len() {
                    assert(before[i] == (id, m));
                } else {
                    assert(own[i - before.len()] == (id, m));
                }
            }
        }
        if exists|i: int|
            0 <= i < d.len() && (#[trigger] d[i]).1.id == id && id != POOL_PROVIDER@ && values(
                d[i].1.models,
            ).contains(m) {
            let i = choose|i: int|
                0 <= i < d.len() && (#[trigger] d[i]).1.id == id && id != POOL_PROVIDER@ && values(
                    d[i].1.models,
                ).contains(m);
            assert(reg[i] == d[i]);
        }
        if exists|i: int|
            0 <= i < reg.len() && (#[trigger] reg[i]).1.id == id && id != POOL_PROVIDER@ && values(
                reg[i].1.models,
            ).contains(m) {
            let i = choose|i: int|
                0 <= i < reg.len() && (#[trigger] reg[i]).1.id == id && id != POOL_PROVIDER@ && values(
                    reg[i].1.models,
                ).contains(m);
            if i < d.len() {
                assert(d[i] == reg[i]);
            }
        }
        if id == p.id && id != POOL_PROVIDER@ && values(p.models).contains(m) {
            assert(reg[reg.len() - 1].1.id == id);
        }
    }
}

proof fn lemma_filtered(s: Seq<ModelView>, pred: spec_fn(ModelView) -> bool, m: ModelView)
    ensures
        s.filter(pred).contains(m) <==> s.contains(m) && pred(m),
{
    if s.filter(pred).contains(m) {
        s.lemma_filter_contains_rev(pred, m);
        let i = choose|i: int| 0 <= i < s.filter(pred).len() && s.filter(pred)[i] == m;
        s.lemma_filter_pred(pred, i);
    }
    if s.contains(m) && pred(m) {
        let i = choose|i: int| 0 <= i < s.len() && s[i] == m;
        s.lemma_filter_contains(pred, i);
    }
}

// ───────────────────────────── what is recorded ─────────────────────────────

/// A request shows in the status at once: one more of the minute and of the day,
/// with its tokens, and no failures in a row.
pub proof fn requests_show_in_the_status(l: LedgerView, m: ModelView, tokens: u64, now: u64)
    requires
        l.usage(m.key()).reqs.len() < u64::MAX,
        tokens_from(l.usage(m.key()).toks, now - 86_400_000) + tokens <= u64::MAX,
    ensures
        ({
            let before = usage_row(l, m.provider_id, m, now as int);
            let after = usage_row(after_request(l, m, tokens, now), m.provider_id, m, now as int);
            &&& after.rpm_used == before.rpm_used + 1
            &&& after.rpd_used == before.rpd_used + 1
            &&& after.tpm_used == before.tpm_used + tokens
            &&& after.tpd_used == before.tpd_used + tokens
            &&& after_request(l, m, tokens, now).usage(m.key()).failures == 0
            &&& after_request(l, m, tokens, now).usage(m.key()).cooldown_until == l.usage(m.key()).cooldown_until
        }),
{
    let u = l.usage(m.key());
    longer_windows_hold_more(u.reqs, u.toks, now - 86_400_000, now - 60_000);
    windows_count_the_latest_requests(u.reqs, now - 60_000);
    windows_count_the_latest_requests(u.reqs, now - 86_400_000);
    request_counts(l, m, tokens, now, now - 60_000);
    request_counts(l, m, tokens, now, now - 86_400_000);
}

/// Tokens that are learned later count into both windows, and are no request.
pub proof fn tokens_show_in_the_status(l: LedgerView, m: ModelView, tokens: u64, now: u64)
    requires
        l.usage(m.key()).reqs.len() < u64::MAX,
        tokens_from(l.usage(m.key()).toks, now - 86_400_000) + tokens <= u64::MAX,
    ensures
        ({
            let before = usage_row(l, m.provider_id, m, now as int);
            let after = usage_row(after_tokens(l, m, tokens, now), m.provider_id, m, now as int);
            &&& after.rpm_used == before.rpm_used
            &&& after.rpd_used == before.rpd_used
            &&& after.tpm_used == before.tpm_used + tokens
            &&& after.tpd_used == before.tpd_used + tokens
        }),
{
    let u = l.usage(m.key());
    longer_windows_hold_more(u.reqs, u.toks, now - 86_400_000, now - 60_000);
    windows_add_up_tokens(u.toks, now, tokens, now - 60_000);
    windows_add_up_tokens(u.toks, now, tokens, now - 86_400_000);
}

/// A time to the first token counts where there was one, a rate where enough was
/// written to measure it, and neither touches anything else.
pub proof fn latency_is_measured(
    l: LedgerView,
    m: ModelView,
    ttft_ms: u64,
    output_tokens: u64,
    gen_ms: u64,
    ttft: u64,
    tps: u64,
)
    ensures
        ({
            let u = l.usage(m.key());
            let v = after_latency(l, m, ttft_ms, output_tokens, gen_ms, ttft, tps).usage(m.key());
            &&& ttft_ms > 0 ==> v.ttft_bits == ttft
            &&& ttft_ms == 0 ==> v.ttft_bits == u.ttft_bits
            &&& output_tokens >= 20 && gen_ms > 0 ==> v.tps_bits == tps
            &&& output_tokens < 20 || gen_ms == 0 ==> v.tps_bits == u.tps_bits
            &&& v.reqs == u.reqs && v.toks == u.toks && v.cooldown_until == u.cooldown_until && v.failures
                == u.failures && v.last_error == u.last_error
        }),
{
}

/// A reset leaves nothing to wait for and no failures, and keeps what was counted
/// and measured.
pub proof fn reset_ends_every_cooldown(l: LedgerView, provider: Seq<char>, m: ModelView, tokens: int, now: int)
    requires
        now >= 0,
    ensures
        ({
            let a = after_reset(l);
            &&& usage_row(a, provider, m, now).cooldown_secs == 0
            &&& refusal(a, m, tokens, now) != Some(Refusal::Cooldown)
            &&& refusal(a, m, tokens, now) != Some(Refusal::ProviderCooldown)
            &&& a.usage(m.key()).failures == 0
            &&& a.usage(m.key()).last_error.len() == 0
            &&& a.usage(m.key()).ttft_bits == l.usage(m.key()).ttft_bits
            &&& a.usage(m.key()).tps_bits == l.usage(m.key()).tps_bits
            &&& usage_row(a, provider, m, now).rpm_used == usage_row(l, provider, m, now).rpm_used
            &&& usage_row(a, provider, m, now).rpd_used == usage_row(l, provider, m, now).rpd_used
            &&& usage_row(a, provider, m, now).tpm_used == usage_row(l, provider, m, now).tpm_used
            &&& usage_row(a, provider, m, now).tpd_used == usage_row(l, provider, m, now).tpd_used
        }),
{
}

// ───────────────────────────── failures ─────────────────────────────

/// A limit per day that is used up rests the model to the end of the day in UTC:
/// whatever phrase the message says it by, the cooldown ends at the next multiple
/// of a day, and no earlier.
pub proof fn daily_limits_rest_to_midnight(err: LlmError, phrase: Seq<char>, failures: int, now: int)
    requires
        now >= 0,
        err matches LlmError::Provider { status, .. } ==> status == 429,
        err is RateLimited || err is Provider,
        contains(lowercase(err.text()), phrase),
        phrase == "per day"@ || phrase == "daily"@ || phrase == "quota exceeded"@ || phrase == "rpd"@,
    ensures
        (now + cooldown(err, failures, now)) % 86_400_000 == 0,
        0 < cooldown(err, failures, now) <= 86_400_000,
{
    let d = 86_400_000int;
    assert((now / d + 1) * d % d == 0) by (nonlinear_arith)
        requires
            d == 86_400_000,
    ;
    assert(now - now / d * d == now % d) by (nonlinear_arith)
        requires
            d == 86_400_000,
            now >= 0,
    ;
    assert((now / d + 1) * d == now / d * d + d) by (nonlinear_arith);
}

/// Where a rate limit is none of the day, the model rests a minute at least, or as
/// long as was asked for; each further failure doubles that, up to an hour.
pub proof fn rate_limits_back_off(err: LlmError, asked: Option<u64>, failures: int, now: int)
    requires
        now >= 0,
        failures >= 0,
        err matches LlmError::RateLimited { retry_after_ms, .. } ==> retry_after_ms == asked,
        err matches LlmError::Provider { status, retry_after_ms, .. } ==> status == 429 && retry_after_ms == asked,
        err is RateLimited || err is Provider,
        !contains(lowercase(err.text()), "per day"@),
        !contains(lowercase(err.text()), "daily"@),
        !contains(lowercase(err.text()), "quota exceeded"@),
        !contains(lowercase(err.text()), "rpd"@),
    ensures
        ({
            let base = match asked {
                Some(ms) if ms > 60_000 => ms as int,
                _ => 60_000,
            };
            &&& cooldown(err, 0, now) == (if base < 3_600_000 {
                base
            } else {
                3_600_000
            })
            &&& cooldown(err, failures + 1, now) == (if failures < 6 && 2 * cooldown(err, failures, now)
                < 3_600_000 {
                2 * cooldown(err, failures, now)
            } else if failures < 6 {
                3_600_000
            } else {
                cooldown(err, failures, now)
            })
        }),
{
    lemma_per_day(lowercase(err.text()));
    let base = match asked {
        Some(ms) if ms > 60_000 => ms as int,
        _ => 60_000,
    };
    assert(base * power(0) == base) by (nonlinear_arith)
        requires
            power(0) == 1,
    ;
    if failures < 6 {
        lemma_doubles(base, failures as nat);
    }
}

/// What speaks of tokens per day speaks of something per day.
proof fn lemma_per_day(s: Seq<char>)
    ensures
        contains(s, "tokens per day"@) ==> contains(s, "per day"@),
{
    reveal_strlit("tokens per day");
    reveal_strlit("per day");
    let long = "tokens per day"@;
    let short = "per day"@;
    assert(long.subrange(7, 14) =~= short);
    if contains(s, long) {
        let i = choose|i: int| crate::text::occurs_at(s, long, i);
        assert(s.subrange(i + 7, i + 14) =~= s.subrange(i, i + 14).subrange(7, 14));
        assert(crate::text::occurs_at(s, short, i + 7));
    }
}

proof fn lemma_doubles(base: int, k: nat)
    ensures
        base * power(k + 1) == 2 * (base * power(k)),
{
    assert(base * (2 * power(k)) == 2 * (base * power(k))) by (nonlinear_arith);
}

/// A provider that answers with another status rests the model: a day where the
/// model is gone, six hours where it must be paid for or is not allowed, half an
/// hour where the request was refused; otherwise half a minute, doubled by each
/// failure, up to a quarter of an hour.
pub proof fn statuses_rest_the_model(err: LlmError, code: u16, failures: int, now: int)
    requires
        now >= 0,
        failures >= 0,
        err matches LlmError::Provider { status, .. } && status == code,
    ensures
        code == 404 ==> cooldown(err, failures, now) == 86_400_000,
        code == 402 || code == 403 ==> cooldown(err, failures, now) == 21_600_000,
        code == 400 || code == 422 ==> cooldown(err, failures, now) == 1_800_000,
        code != 404 && code != 402 && code != 403 && code != 400 && code != 422 && code != 429 ==> {
            &&& cooldown(err, 0, now) == 30_000
            &&& cooldown(err, failures + 1, now) == (if failures < 5 && 2 * cooldown(err, failures, now)
                < 900_000 {
                2 * cooldown(err, failures, now)
            } else if failures < 5 {
                900_000
            } else {
                cooldown(err, failures, now)
            })
        },
{
    if failures < 5 {
        lemma_doubles(30_000, failures as nat);
    }
    assert(power(0) == 1);
}

/// Without an answer the model rests half a minute, doubled by each failure, up to
/// ten minutes; with one that makes no sense, ten minutes. A login that fails rests
/// its provider for an hour. Any other failure rests nothing.
pub proof fn other_failures_rest_the_model(err: LlmError, failures: int, now: int)
    requires
        now >= 0,
        failures >= 0,
    ensures
        err is Network || err is Timeout ==> {
            &&& cooldown(err, 0, now) == 30_000
            &&& cooldown(err, failures + 1, now) == (if failures < 4 && 2 * cooldown(err, failures, now)
                < 600_000 {
                2 * cooldown(err, failures, now)
            } else if failures < 4 {
                600_000
            } else {
                cooldown(err, failures, now)
            })
        },
        err is InvalidOutput || err is InvalidRequest ==> cooldown(err, failures, now) == 600_000,
        err is Authentication ==> cooldown(err, failures, now) == 3_600_000,
        err is Other ==> cooldown(err, failures, now) == 0,
{
    if failures < 4 {
        lemma_doubles(30_000, failures as nat);
    }
    assert(power(0) == 1);
}

/// A failure is put down: the model's failures in a row go up by one, it rests for
/// the cooldown, and the message is kept; of a failed login the provider rests, and
/// nothing is held against the model.
pub proof fn failures_are_put_down(l: LedgerView, m: ModelView, err: LlmError, now: int)
    requires
        0 <= now <= u64::MAX - 2 * DAY,
        l.usage(m.key()).failures < u32::MAX,
    ensures
        ({
            let a = after_failure(l, m, err, now);
            let u = l.usage(m.key());
            &&& err is Other ==> a == l
            &&& err is Authentication ==> {
                &&& a.usage(m.key()) == u
                &&& a.provider_until(m.provider_id) == now + 3_600_000
                &&& a.providers[m.provider_id].1 == err.text()
            }
            &&& !(err is Other) && !(err is Authentication) ==> {
                let v = a.usage(m.key());
                &&& a.providers == l.providers
                &&& v.failures == u.failures + 1
                &&& v.cooldown_until == now + cooldown(err, u.failures + 1, now)
                &&& v.last_error == err.text()
                &&& v.reqs == u.reqs && v.toks == u.toks && v.ttft_bits == u.ttft_bits && v.tps_bits == u.tps_bits
            }
        }),
{
    if !(err is Other) {
        crate::router::cooldown_is_positive(err, l.usage(m.key()).failures + 1, now);
    }
}

// ───────────────────────────── picking ─────────────────────────────

/// The `auto` strategy wants the smartest model for work with tools, for a prompt of
/// more than 24000 tokens, and where the text speaks of hard work; else the fastest
/// for a short text or where a quick answer is asked for; else it balances.
pub proof fn auto_goes_by_the_work(need: NeedView, word: Seq<char>)
    ensures
        need.tools ==> auto_strategy(need) == Strategy::Smart,
        need.tokens > 24_000 ==> auto_strategy(need) == Strategy::Smart,
        contains(lowercase(need.user_text), word) && (word == "refactor"@ || word == "implement"@ || word == "debug"@
            || word == "architecture"@ || word == "design"@ || word == "prove"@ || word == "analyze"@ || word
            == "analyse"@ || word == "migrate"@ || word == "optimize"@ || word == "security"@ || word == "review"@)
            ==> auto_strategy(need) == Strategy::Smart,
        auto_strategy(need) == Strategy::Smart ==> need.tools || need.tokens > 24_000 || exists|w: Seq<char>|
            #[trigger] contains(lowercase(need.user_text), w) && (w == "refactor"@ || w == "implement"@ || w == "debug"@
                || w == "architecture"@ || w == "design"@ || w == "prove"@ || w == "analyze"@ || w == "analyse"@ || w
                == "migrate"@ || w == "optimize"@ || w == "security"@ || w == "review"@),
        auto_strategy(need) != Strategy::Smart && lowercase(need.user_text).len() < 160 ==> auto_strategy(need)
            == Strategy::Fast,
        auto_strategy(need) != Strategy::Smart && contains(lowercase(need.user_text), word) && (word == "quick"@ || word
            == "briefly"@ || word == "one word"@ || word == "yes or no"@ || word == "tl;dr"@ || word == "short answer"@)
            ==> auto_strategy(need) == Strategy::Fast,
        auto_strategy(need) == Strategy::Fast ==> lowercase(need.user_text).len() < 160 || exists|w: Seq<char>|
            #[trigger] contains(lowercase(need.user_text), w) && (w == "quick"@ || w == "briefly"@ || w == "one word"@ || w
                == "yes or no"@ || w == "tl;dr"@ || w == "short answer"@),
{
}

/// A smart pick goes by quality, a fast one by speed, and headroom weighs the same in
/// all; the weights are out of a hundred.
pub proof fn weights_go_by_the_strategy(s: Strategy)
    ensures
        weights(s).0 + weights(s).1 + weights(s).2 == 100,
        weights(s).2 == 20,
        weights(Strategy::Smart).0 == 3 * weights(Strategy::Fast).0 && weights(Strategy::Auto).0 == 2 * weights(
            Strategy::Fast,
        ).0,
        weights(Strategy::Fast).1 == 11 * weights(Strategy::Smart).1 && weights(Strategy::Auto).1 == 6 * weights(
            Strategy::Smart,
        ).1,
{
}

/// What is picked from: the models of connected providers but the pool itself that
/// belong to the pool and have a protocol, that were not left out, and that can call
/// tools and see images where the request needs it.
pub proof fn candidates_can_do_the_work(
    reg: Seq<(Seq<char>, ProviderView)>,
    need: NeedView,
    exclude: Seq<Seq<char>>,
    m: ModelView,
)
    ensures
        candidates(reg, need, exclude).contains(m) ==> {
            &&& m.pool is Some && m.protocol is Some
            &&& !exclude.contains(m.key())
            &&& need.tools ==> m.tool_call
            &&& need.vision ==> m.attachment
            &&& exists|i: int|
                0 <= i < reg.len() && (#[trigger] reg[i]).1.connected && reg[i].1.id != POOL_PROVIDER@ && values(
                    reg[i].1.models,
                ).contains(m)
        },
        m.pool is Some && m.protocol is Some && !exclude.contains(m.key()) && (need.tools ==> m.tool_call) && (
        need.vision ==> m.attachment) && m.context * crate::double::SCALE >= crate::double::padded(need.tokens) && (
        exists|i: int|
            0 <= i < reg.len() && (#[trigger] reg[i]).1.connected && reg[i].1.id != POOL_PROVIDER@ && values(
                reg[i].1.models,
            ).contains(m)) ==> candidates(reg, need, exclude).contains(m),
{
    crate::router::candidates_suit(reg, need, exclude, m);
    if candidates(reg, need, exclude).contains(m) {
        let i = choose|i: int| crate::router::offers(reg, i, m);
        assert(reg[i].1.connected);
    }
    if exists|i: int|
        0 <= i < reg.len() && (#[trigger] reg[i]).1.connected && reg[i].1.id != POOL_PROVIDER@ && values(
            reg[i].1.models,
        ).contains(m) {
        let i = choose|i: int|
            0 <= i < reg.len() && (#[trigger] reg[i]).1.connected && reg[i].1.id != POOL_PROVIDER@ && values(
                reg[i].1.models,
            ).contains(m);
        assert(crate::router::offers(reg, i, m));
    }
}

/// A session is held to its model for the minutes that were asked for, and not
/// beyond; without minutes, to none. Other sessions are held to what they were.
pub proof fn sticking_ends(
    r: RouterView,
    c: Seq<ModelView>,
    strategy: Strategy,
    need: NeedView,
    session: Seq<char>,
    minutes: int,
    now: int,
    later: int,
    scores: Seq<i64>,
    other: Seq<char>,
)
    requires
        minutes >= 0,
        now >= 0,
        now + minutes * 60_000 <= u64::MAX,
        !r.sticky.contains_key(session),
    ensures
        ({
            let (after, p) = picked(r, c, strategy, need, session, minutes, now, scores);
            &&& minutes == 0 ==> after.sticky == r.sticky
            &&& p is None ==> after.sticky == r.sticky
            &&& later >= now + minutes * 60_000 ==> kept(after, c, session, later) is None
            &&& minutes > 0 && p is Some && later < now + minutes * 60_000 ==> kept(after, c, session, later) is Some
            &&& other != session ==> kept(after, c, other, later) == kept(r, c, other, later)
            &&& p matches Some(x) ==> x.1 == "smart"@ || x.1 == "fast"@ || x.1 == "auto"@
        }),
{
    let (after, p) = picked(r, c, strategy, need, session, minutes, now, scores);
    assert(minutes * MINUTE == minutes * 60_000);
    if minutes > 0 && p is Some {
        let i = choose|i: int| 0 <= i < c.len() && c[i] == (p->0).0;
        crate::router::pick_is_usable(r, c, strategy, need, session, minutes, now, scores);
        lemma_found(c, after.sticky[session].0);
    }
}

proof fn lemma_found(c: Seq<ModelView>, key: Seq<char>)
    ensures
        position(c, key) is Some <==> exists|i: int| 0 <= i < c.len() && (#[trigger] c[i]).key() == key,
        position(c, key) matches Some(i) ==> 0 <= i < c.len() && c[i].key() == key,
    decreases c.len(),
{
    if c.len() > 0 && c[0].key() != key {
        let d = c.skip(1);
        lemma_found(d, key);
        if exists|i: int| 0 <= i < c.len() && (#[trigger] c[i]).key() == key {
            let i = choose|i: int| 0 <= i < c.len() && (#[trigger] c[i]).key() == key;
            assert(d[i - 1] == c[i]);
        }
        if exists|i: int| 0 <= i < d.len() && (#[trigger] d[i]).key() == key {
            let i = choose|i: int| 0 <= i < d.len() && (#[trigger] d[i]).key() == key;
            assert(c[i + 1] == d[i]);
        }
    } else if c.len() > 0 {
        assert(c[0].key() == key);
    }
}

// ───────────────────────────── names ─────────────────────────────

/// A model goes by its provider and its own name, a refusal and a strategy by a word.
pub proof fn names_are_words(m: ModelView)
    ensures
        m.key() == m.provider_id + "/"@ + m.id,
        Refusal::ProviderCooldown.spec_name() == "provider cooldown"@,
        Refusal::NotInPool.spec_name() == "not in pool"@,
        Refusal::Cooldown.spec_name() == "cooldown"@,
        Refusal::Rpm.spec_name() == "rpm"@,
        Refusal::Rpd.spec_name() == "rpd"@,
        Refusal::Tpm.spec_name() == "tpm"@,
        Refusal::Tpd.spec_name() == "tpd"@,
        Strategy::Smart.spec_name() == "smart"@,
        Strategy::Fast.spec_name() == "fast"@,
        Strategy::Auto.spec_name() == "auto"@,
{
}

/// Only `auto` looks at the request; the other strategies are what they are.
pub proof fn only_auto_looks_at_the_request(s: Strategy, need: NeedView)
    ensures
        s != Strategy::Auto ==> crate::router::effective(s, need) == s,
        s == Strategy::Auto ==> crate::router::effective(s, need) == auto_strategy(need),
{
}

/// What is older than a day is forgotten from the front, and nothing else.
pub proof fn old_use_is_forgotten(u: crate::usage::UsageView, now: int)
    ensures
        ({
            let p = u.pruned(now);
            &&& p.reqs.len() > 0 ==> p.reqs[0] + 86_400_000 >= now
            &&& p.toks.len() > 0 ==> p.toks[0].0 + 86_400_000 >= now
            &&& p.reqs.len() <= u.reqs.len() && p.reqs == u.reqs.skip(u.reqs.len() - p.reqs.len())
            &&& p.toks.len() <= u.toks.len() && p.toks == u.toks.skip(u.toks.len() - p.toks.len())
            &&& forall|i: int| 0 <= i < u.reqs.len() - p.reqs.len() ==> #[trigger] u.reqs[i] + 86_400_000 < now
            &&& p.cooldown_until == u.cooldown_until && p.failures == u.failures && p.last_error == u.last_error
        }),
{
    lemma_fresh_reqs(u.reqs, now);
    lemma_fresh_toks(u.toks, now);
}

proof fn lemma_fresh_reqs(r: Seq<u64>, now: int)
    ensures
        ({
            let p = crate::usage::fresh_reqs(r, now);
            &&& p.len() > 0 ==> p[0] + 86_400_000 >= now
            &&& p.len() <= r.len() && p == r.skip(r.len() - p.len())
            &&& forall|i: int| 0 <= i < r.len() - p.len() ==> #[trigger] r[i] + 86_400_000 < now
        }),
    decreases r.len(),
{
    if r.len() > 0 && r[0] + DAY < now {
        let d = r.skip(1);
        let p = crate::usage::fresh_reqs(d, now);
        lemma_fresh_reqs(d, now);
        assert(d.skip(d.len() - p.len()) =~= r.skip(r.len() - p.len()));
        assert forall|i: int| 0 <= i < r.len() - p.len() implies #[trigger] r[i] + 86_400_000 < now by {
            if i > 0 {
                assert(d[i - 1] == r[i]);
            }
        }
    } else {
        assert(r.skip(0) =~= r);
    }
}

proof fn lemma_fresh_toks(r: Seq<(u64, u64)>, now: int)
    ensures
        ({
            let p = crate::usage::fresh_toks(r, now);
            &&& p.len() > 0 ==> p[0].0 + 86_400_000 >= now
            &&& p.len() <= r.len() && p == r.skip(r.len() - p.len())
        }),
    decreases r.len(),
{
    if r.len() > 0 && r[0].0 + DAY < now {
        let d = r.skip(1);
        let p = crate::usage::fresh_toks(d, now);
        lemma_fresh_toks(d, now);
        assert(d.skip(d.len() - p.len()) =~= r.skip(r.len() - p.len()));
    } else {
        assert(r.skip(0) =~= r);
    }
}

} // verus!
