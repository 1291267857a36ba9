//! Coalescing of file-system events: a burst of raw events becomes one
//! "dirty" tick once the tree has been quiet for the debounce window.
//!
//! Times are milliseconds on a monotonic clock. The watcher's thread waits
//! for raw events as long as [`Debouncer::wait`] says, reports each one to
//! [`Debouncer::event`] and each time-out to [`Debouncer::timeout`], and
//! sends a tick whenever one of them says so.

use vstd::prelude::*;

verus! {

/// How long to wait when nothing is pending.
pub const IDLE_WAIT_MS: u64 = 60000;

/// How long to wait right after a tick.
pub const AFTER_TICK_WAIT_MS: u64 = 500;

/// Time since `t` at `now`, zero if the clock reads earlier.
pub open spec fn since(t: u64, now: u64) -> int {
    if now >= t {
        now - t
    } else {
        0
    }
}

/// Before waiting: the pending event (if any) after the step, whether to
/// tick, and how long to wait.
pub open spec fn wait_step(pending: Option<u64>, now: u64, window: u64) -> (Option<u64>, bool, u64) {
    match pending {
        Some(t) => if since(t, now) >= window {
            (None, true, AFTER_TICK_WAIT_MS)
        } else {
            (Some(t), false, (window - since(t, now)) as u64)
        },
        None => (None, false, IDLE_WAIT_MS),
    }
}

/// After a wait that saw no event: the pending event after the step and
/// whether to tick.
pub open spec fn timeout_step(pending: Option<u64>, now: u64, window: u64) -> (Option<u64>, bool) {
    match pending {
        Some(t) => if since(t, now) >= window {
            (None, true)
        } else {
            (Some(t), false)
        },
        None => (None, false),
    }
}

/// The debounce state: when the last unreported raw event came.
pub struct Debouncer {
    pub pending: Option<u64>,
    pub window_ms: u64,
}

impl Debouncer {
    /// Nothing pending.
    pub fn new(window_ms: u64) -> (r: Debouncer)
        ensures
            r.pending is None,
            r.window_ms == window_ms,
    {
        Debouncer { pending: None, window_ms }
    }

    /// Before waiting at `now`: whether to tick, and how long to wait.
    pub fn wait(&mut self, now: u64) -> (r: (bool, u64))
        ensures
            final(self).window_ms == old(self).window_ms,
            (final(self).pending, r.0, r.1) == wait_step(old(self).pending, now, old(self).window_ms),
    {
        match self.pending {
            Some(t) => {
                let elapsed = if now >= t {
                    now - t
                } else {
                    0
                };
                if elapsed >= self.window_ms {
                    self.pending = None;
                    (true, AFTER_TICK_WAIT_MS)
                } else {
                    (false, self.window_ms - elapsed)
                }
            },
            None => (false, IDLE_WAIT_MS),
        }
    }

    /// A raw event arrived at `now` (the rest of its burst is drained by the
    /// caller).
    pub fn event(&mut self, now: u64)
        ensures
            final(self).pending == Some(now),
            final(self).window_ms == old(self).window_ms,
    {
        self.pending = Some(now);
    }

    /// The wait ended at `now` with no event: whether to tick.
    pub fn timeout(&mut self, now: u64) -> (r: bool)
        ensures
            final(self).window_ms == old(self).window_ms,
            (final(self).pending, r) == timeout_step(old(self).pending, now, old(self).window_ms),
    {
        match self.pending {
            Some(t) => {
                let elapsed = if now >= t {
                    now - t
                } else {
                    0
                };
                if elapsed >= self.window_ms {
                    self.pending = None;
                    true
                } else {
                    false
                }
            },
            None => false,
        }
    }
}

/// A tick comes only from a pending event that has been quiet for the
/// whole window, and it clears what was pending: without a new event, no
/// later wait or time-out ticks again.
pub proof fn lemma_one_tick_per_burst(pending: Option<u64>, now: u64, later: u64, window: u64)
    ensures
        wait_step(pending, now, window).1 ==> (pending matches Some(t) && since(t, now) >= window),
        timeout_step(pending, now, window).1 ==> (pending matches Some(t) && since(t, now)
            >= window),
        wait_step(pending, now, window).1 ==> !wait_step(
            wait_step(pending, now, window).0,
            later,
            window,
        ).1 && !timeout_step(wait_step(pending, now, window).0, later, window).1,
        timeout_step(pending, now, window).1 ==> !wait_step(
            timeout_step(pending, now, window).0,
            later,
            window,
        ).1 && !timeout_step(timeout_step(pending, now, window).0, later, window).1,
{
}

/// While an event is pending and the window has not passed, the wait ends
/// exactly when it would: the time waited and the time already passed make
/// up the window.
pub proof fn lemma_wait_fills_window(t: u64, now: u64, window: u64)
    requires
        since(t, now) < window,
    ensures
        !wait_step(Some(t), now, window).1,
        since(t, now) + wait_step(Some(t), now, window).2 == window,
{
}

/// What the watcher's thread sees at a moment: a raw event, or the end of a
/// wait or a time-out with no event.
pub enum Seen {
    Event(u64),
    Quiet(u64),
}

/// One observation: an event becomes pending; a quiet moment ticks as a
/// wait or a time-out does (they agree, see [`lemma_wait_like_timeout`]).
pub open spec fn seen_step(p: Option<u64>, s: Seen, window: u64) -> (Option<u64>, bool) {
    match s {
        Seen::Event(t) => (Some(t), false),
        Seen::Quiet(t) => timeout_step(p, t, window),
    }
}

/// What is pending after the first `i` observations, starting from `p`.
pub open spec fn pending_after(p: Option<u64>, ss: Seq<Seen>, window: u64, i: nat) -> Option<u64>
    decreases i,
{
    if i == 0 {
        p
    } else {
        seen_step(pending_after(p, ss, window, (i - 1) as nat), ss[i - 1], window).0
    }
}

/// Whether observation `i` ticks.
pub open spec fn ticks_at(p: Option<u64>, ss: Seq<Seen>, window: u64, i: nat) -> bool {
    seen_step(pending_after(p, ss, window, i), ss[i as int], window).1
}

/// A wait and a time-out at the same moment leave the same thing pending
/// and agree on whether to tick.
pub proof fn lemma_wait_like_timeout(pending: Option<u64>, now: u64, window: u64)
    ensures
        wait_step(pending, now, window).0 == timeout_step(pending, now, window).0,
        wait_step(pending, now, window).1 == timeout_step(pending, now, window).1,
{
}

/// What is pending is the latest event seen, with no tick since it; or the
/// starting one, when nothing has been seen but quiet moments.
pub proof fn lemma_pending_is_latest_event(p: Option<u64>, ss: Seq<Seen>, window: u64, i: nat)
    requires
        i <= ss.len(),
    ensures
        pending_after(p, ss, window, i) matches Some(t) ==> ((exists|j: int|
            0 <= j < i && #[trigger] ss[j] == Seen::Event(t) && forall|k: int|
                j < k < i ==> (#[trigger] ss[k] is Quiet && !ticks_at(p, ss, window, k as nat)))
            || (p == Some(t) && forall|k: int|
            0 <= k < i ==> (#[trigger] ss[k] is Quiet && !ticks_at(p, ss, window, k as nat)))),
    decreases i,
{
    if i > 0 {
        let m = (i - 1) as nat;
        lemma_pending_is_latest_event(p, ss, window, m);
        let before = pending_after(p, ss, window, m);
        match ss[m as int] {
            Seen::Event(t) => {
                assert(ss[m as int] == Seen::Event(t));
            },
            Seen::Quiet(now) => {
                if let Some(t) = pending_after(p, ss, window, i) {
                    assert(before == Some(t));
                    assert(!ticks_at(p, ss, window, m));
                    if exists|j: int|
                        0 <= j < m && #[trigger] ss[j] == Seen::Event(t) && forall|k: int|
                            j < k < m ==> (#[trigger] ss[k] is Quiet && !ticks_at(p, ss, window, k as nat)) {
                        let j = choose|j: int|
                            0 <= j < m && #[trigger] ss[j] == Seen::Event(t) && forall|k: int|
                                j < k < m ==> (#[trigger] ss[k] is Quiet && !ticks_at(p, ss, window, k as nat));
                        assert(forall|k: int|
                            j < k < i ==> (#[trigger] ss[k] is Quiet && !ticks_at(p, ss, window, k as nat)));
                    }
                }
            },
        }
    }
}

/// A tick comes only at a quiet moment, from a pending event that came at
/// least a whole window before it.
pub proof fn lemma_tick_after_quiet_window(p: Option<u64>, ss: Seq<Seen>, window: u64, i: nat)
    requires
        i < ss.len(),
        ticks_at(p, ss, window, i),
    ensures
        ss[i as int] matches Seen::Quiet(now) && pending_after(p, ss, window, i) matches Some(t) && since(
            t,
            now,
        ) >= window,
{
}

proof fn lemma_quiet_after_tick(p: Option<u64>, ss: Seq<Seen>, window: u64, i: nat, m: nat)
    requires
        i < m <= ss.len(),
        ticks_at(p, ss, window, i),
        forall|j: int| i < j < m ==> #[trigger] ss[j] is Quiet,
    ensures
        pending_after(p, ss, window, m) is None,
    decreases m,
{
    if m > i + 1 {
        lemma_quiet_after_tick(p, ss, window, i, (m - 1) as nat);
        assert(ss[m - 1] is Quiet);
    }
}

/// Between two ticks there is always a raw event: each tick reports at
/// least one event that no earlier tick reported.
pub proof fn lemma_event_between_ticks(p: Option<u64>, ss: Seq<Seen>, window: u64, i: nat, k: nat)
    requires
        i < k < ss.len(),
        ticks_at(p, ss, window, i),
        ticks_at(p, ss, window, k),
    ensures
        exists|j: int| i < j < k && #[trigger] ss[j] is Event,
{
    if !exists|j: int| i < j < k && #[trigger] ss[j] is Event {
        assert forall|j: int| i < j < k implies #[trigger] ss[j] is Quiet by {
            if ss[j] is Event {
                assert(i < j < k && ss[j] is Event);
            }
        }
        lemma_quiet_after_tick(p, ss, window, i, k);
    }
}

/// Once an event is pending, the first quiet moment a whole window after it
/// ticks.
pub proof fn lemma_quiet_window_ticks(p: Option<u64>, ss: Seq<Seen>, window: u64, i: nat)
    requires
        i < ss.len(),
        pending_after(p, ss, window, i) matches Some(t) && ss[i as int] matches Seen::Quiet(now) && since(
            t,
            now,
        ) >= window,
    ensures
        ticks_at(p, ss, window, i),
        pending_after(p, ss, window, i + 1) is None,
{
}

/// When an observation was made.
pub open spec fn seen_time(s: Seen) -> u64 {
    match s {
        Seen::Event(t) => t,
        Seen::Quiet(t) => t,
    }
}

/// The position of the latest event among the first `j` observations, or
/// -1 when there is none.
pub open spec fn latest_event(ss: Seq<Seen>, j: nat) -> int
    decreases j,
{
    if j == 0 {
        -1
    } else if ss[j - 1] is Event {
        j - 1
    } else {
        latest_event(ss, (j - 1) as nat)
    }
}

/// Every quiet moment before `k` came less than a window after the latest
/// event before it: the events form one burst, still going on.
pub open spec fn burst_until(ss: Seq<Seen>, window: u64, k: nat) -> bool {
    forall|m: int|
        0 <= m < k && #[trigger] ss[m] is Quiet ==> latest_event(ss, m as nat) >= 0 && since(
            seen_time(ss[latest_event(ss, m as nat)]),
            seen_time(ss[m]),
        ) < window
}

proof fn lemma_latest_event_range(ss: Seq<Seen>, j: nat)
    requires
        j <= ss.len(),
    ensures
        -1 <= latest_event(ss, j) < j,
        latest_event(ss, j) >= 0 ==> ss[latest_event(ss, j)] is Event,
    decreases j,
{
    if j > 0 {
        lemma_latest_event_range(ss, (j - 1) as nat);
    }
}

proof fn lemma_burst_pending(ss: Seq<Seen>, window: u64, k: nat, j: nat)
    requires
        1 <= j <= k < ss.len(),
        ss[0] is Event,
        burst_until(ss, window, k),
    ensures
        latest_event(ss, j) >= 0,
        pending_after(None, ss, window, j) == Some(seen_time(ss[latest_event(ss, j)])),
        forall|m: int| 0 <= m < j ==> !ticks_at(None, ss, window, #[trigger] (m as nat)),
    decreases j,
{
    lemma_latest_event_range(ss, j);
    if j == 1 {
        assert(latest_event(ss, 1) == 0);
        assert forall|m: int| 0 <= m < 1 implies !ticks_at(None, ss, window, #[trigger] (m as nat)) by {
            assert(m == 0);
        }
    } else {
        let i = (j - 1) as nat;
        lemma_burst_pending(ss, window, k, i);
        lemma_latest_event_range(ss, i);
        match ss[i as int] {
            Seen::Event(t) => {},
            Seen::Quiet(t) => {
                assert(ss[i as int] is Quiet);
                assert(since(seen_time(ss[latest_event(ss, i)]), seen_time(ss[i as int])) < window);
            },
        }
        assert forall|m: int| 0 <= m < j implies !ticks_at(None, ss, window, #[trigger] (m as nat)) by {
            if m < i {
                assert(!ticks_at(None, ss, window, m as nat));
            }
        }
    }
}

/// A burst of events, starting from nothing pending, whose quiet moments
/// all come less than a window after the latest event, gives no tick; the
/// first quiet moment a whole window after the burst's last event gives
/// exactly one, and nothing is pending after it, so no further tick comes
/// without a new event (see [`lemma_event_between_ticks`]).
pub proof fn lemma_burst_one_tick(ss: Seq<Seen>, window: u64, k: nat)
    requires
        1 <= k < ss.len(),
        ss[0] is Event,
        burst_until(ss, window, k),
        ss[k as int] is Quiet,
        since(seen_time(ss[latest_event(ss, k)]), seen_time(ss[k as int])) >= window,
    ensures
        forall|m: int| 0 <= m < k ==> !ticks_at(None, ss, window, #[trigger] (m as nat)),
        ticks_at(None, ss, window, k),
        pending_after(None, ss, window, k + 1) is None,
{
    lemma_burst_pending(ss, window, k, k);
}

} // verus!
