//! Per-client request counting over fixed windows.

use vstd::prelude::*;
use crate::strmap::{StrMap, assoc_get, assoc_insert, lemma_key_pos};
use crate::text::owned;

verus! {

/// Counts requests per client: for each client, how many requests were let
/// through in its current window and when (Unix seconds) that window began.
pub struct RateLimiter {
    pub requests: StrMap<(u64, i64)>,
}

/// The entry of a client after one more request at `now`, and whether the
/// request is let through. A client without an entry starts with none
/// counted at `now`; a window older than `window_sec` starts afresh with
/// this request; else the request counts while fewer than `limit` did.
pub open spec fn rate_step(entry: Option<(u64, i64)>, now: i64, limit: u64, window_sec: i64) -> (
    (u64, i64),
    bool,
) {
    let e = match entry {
        Some(e) => e,
        None => (0u64, now),
    };
    if now - e.1 > window_sec {
        ((1u64, now), true)
    } else if e.0 < limit {
        (((e.0 + 1) as u64, e.1), true)
    } else {
        (e, false)
    }
}

impl RateLimiter {
    /// A limiter that has seen no request.
    pub fn new() -> (r: Self)
        ensures
            r.requests@ == Seq::<(Seq<char>, (u64, i64))>::empty(),
    {
        RateLimiter { requests: StrMap::new() }
    }

    /// Counts a request of `client_id` at `now` and tells whether it is let
    /// through.
    pub fn check_at(&mut self, client_id: &str, limit: u64, window_sec: i64, now: i64) -> (r: bool)
        ensures
            ({
                let step = rate_step(assoc_get(old(self).requests@, client_id@), now, limit, window_sec);
                &&& r == step.1
                &&& final(self).requests@ == assoc_insert(old(self).requests@, client_id@, step.0)
            }),
    {
        let e: (u64, i64) = match self.requests.get(client_id) {
            Some(e) => *e,
            None => (0, now),
        };
        let elapsed: i128 = (now as i128) - (e.1 as i128);
        let (ne, ok): ((u64, i64), bool) = if elapsed > (window_sec as i128) {
            ((1, now), true)
        } else if e.0 < limit {
            ((e.0 + 1, e.1), true)
        } else {
            (e, false)
        };
        self.requests.insert(owned(client_id), ne);
        ok
    }

    /// Counts a request of `client_id` now, by the system clock.
    pub fn check(&mut self, client_id: &str, limit: u64, window_sec: i64) -> (r: bool)
        ensures
            exists|now: i64|
                #![trigger rate_step(assoc_get(old(self).requests@, client_id@), now, limit, window_sec)]
                {
                    let step = rate_step(assoc_get(old(self).requests@, client_id@), now, limit, window_sec);
                    &&& r == step.1
                    &&& final(self).requests@ == assoc_insert(old(self).requests@, client_id@, step.0)
                },
    {
        let now = crate::merchant::now();
        self.check_at(client_id, limit, window_sec, now.secs)
    }
}

/// A refused request leaves the client's entry as it was.
pub proof fn law_refusal_keeps_entry(entry: (u64, i64), now: i64, limit: u64, window_sec: i64)
    ensures
        !rate_step(Some(entry), now, limit, window_sec).1 ==> rate_step(
            Some(entry),
            now,
            limit,
            window_sec,
        ).0 == entry,
{
}

/// Within one window no more than `limit` requests are counted: an entry
/// whose count is at most `max(limit, 1)` keeps that bound after any
/// request.
pub proof fn law_count_within_limit(entry: Option<(u64, i64)>, now: i64, limit: u64, window_sec: i64)
    requires
        entry matches Some(e) ==> e.0 <= limit || e.0 == 1,
    ensures
        ({
            let c = rate_step(entry, now, limit, window_sec).0.0;
            c <= limit || c == 1
        }),
{
}

/// Requests let through in the same window always advance the count by one
/// and keep the window's start.
pub proof fn law_same_window_counts_up(e: (u64, i64), now: i64, limit: u64, window_sec: i64)
    requires
        now - e.1 <= window_sec,
        e.0 < limit,
    ensures
        rate_step(Some(e), now, limit, window_sec) == (((e.0 + 1) as u64, e.1), true),
{
}

/// Whether each of a client's requests at the given times is let through,
/// starting from its entry `entry`.
pub open spec fn rate_outcomes(entry: Option<(u64, i64)>, times: Seq<i64>, limit: u64, window_sec: i64) -> Seq<
    bool,
>
    decreases times.len(),
{
    if times.len() == 0 {
        Seq::empty()
    } else {
        let st = rate_step(entry, times[0], limit, window_sec);
        seq![st.1] + rate_outcomes(Some(st.0), times.drop_first(), limit, window_sec)
    }
}

proof fn lemma_outcomes_in_window(c: u64, start: i64, times: Seq<i64>, limit: u64, window_sec: i64)
    requires
        forall|j: int| 0 <= j < times.len() ==> #[trigger] times[j] - start <= window_sec,
    ensures
        rate_outcomes(Some((c, start)), times, limit, window_sec).len() == times.len(),
        forall|j: int|
            0 <= j < times.len() ==> #[trigger] rate_outcomes(Some((c, start)), times, limit, window_sec)[j]
                == (c + j < limit),
    decreases times.len(),
{
    if times.len() > 0 {
        let rest = times.drop_first();
        assert forall|j: int| 0 <= j < rest.len() implies #[trigger] rest[j] - start <= window_sec by {
            assert(rest[j] == times[j + 1]);
        }
        assert(times[0] - start <= window_sec);
        let c2: u64 = if c < limit { (c + 1) as u64 } else { c };
        lemma_outcomes_in_window(c2, start, rest, limit, window_sec);
        let o = rate_outcomes(Some((c, start)), times, limit, window_sec);
        assert forall|j: int| 0 <= j < times.len() implies #[trigger] o[j] == (c + j < limit) by {
            if j > 0 {
                assert(o[j] == rate_outcomes(Some((c2, start)), rest, limit, window_sec)[j - 1]);
            }
        }
    }
}

/// Within one window a new client's first `limit` requests are let through
/// and every later one is refused: of `n` requests whose times all lie
/// within `window_sec` of the first, the first `min(n, limit)` succeed.
pub proof fn law_first_requests_pass(times: Seq<i64>, limit: u64, window_sec: i64)
    requires
        window_sec >= 0,
        times.len() > 0,
        forall|j: int| 0 <= j < times.len() ==> #[trigger] times[j] - times[0] <= window_sec,
    ensures
        rate_outcomes(None, times, limit, window_sec).len() == times.len(),
        forall|j: int|
            0 <= j < times.len() ==> #[trigger] rate_outcomes(None, times, limit, window_sec)[j] == (j
                < limit),
{
    lemma_outcomes_in_window(0, times[0], times, limit, window_sec);
    assert(rate_outcomes(None, times, limit, window_sec) == rate_outcomes(
        Some((0u64, times[0])),
        times,
        limit,
        window_sec,
    ));
}

/// A request that finds its client's window expired starts a new window at
/// its own time: it is let through and counted as the first of that window.
pub proof fn law_expired_window_restarts(e: (u64, i64), now: i64, limit: u64, window_sec: i64)
    requires
        now - e.1 > window_sec,
    ensures
        rate_step(Some(e), now, limit, window_sec) == ((1u64, now), true),
{
}

/// After a reset, a window holds at most `max(limit, 1)` requests: when a
/// client's first request finds its window expired, of the requests within
/// `window_sec` of that one exactly the first and those before the
/// `limit`-th are let through.
pub proof fn law_window_after_reset(e: (u64, i64), times: Seq<i64>, limit: u64, window_sec: i64)
    requires
        times.len() > 0,
        times[0] - e.1 > window_sec,
        forall|j: int| 0 <= j < times.len() ==> #[trigger] times[j] - times[0] <= window_sec,
    ensures
        rate_outcomes(Some(e), times, limit, window_sec).len() == times.len(),
        forall|j: int|
            0 <= j < times.len() ==> #[trigger] rate_outcomes(Some(e), times, limit, window_sec)[j] == (j
                == 0 || j < limit),
{
    let rest = times.drop_first();
    assert forall|j: int| 0 <= j < rest.len() implies #[trigger] rest[j] - times[0] <= window_sec by {
        assert(rest[j] == times[j + 1]);
    }
    lemma_outcomes_in_window(1, times[0], rest, limit, window_sec);
    let o = rate_outcomes(Some(e), times, limit, window_sec);
    let o2 = rate_outcomes(Some((1u64, times[0])), rest, limit, window_sec);
    assert(o == seq![true] + o2);
    assert forall|j: int| 0 <= j < times.len() implies #[trigger] o[j] == (j == 0 || j < limit) by {
        if j > 0 {
            assert(o[j] == o2[j - 1]);
        }
    }
}

} // verus!
