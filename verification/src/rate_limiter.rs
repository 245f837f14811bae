//! The per-tool fixed-window rate limiter.

use vstd::prelude::*;
use crate::errors::ServerError;
pub use crate::ext::current_timestamp;
use crate::strmap::{StrMap, has_key, value_of, find_key, lemma_find_key};
use crate::util::push_str_chars;

verus! {

/// Rate-limit tracking for a single tool.
#[derive(Debug, Clone, Copy)]
pub struct RateLimitWindow {
    /// Requests admitted in the current window.
    pub requests: u32,
    /// Window start, in epoch seconds.
    pub window_start: u64,
    /// Requests admitted per window.
    pub max_requests: u32,
    /// Window length in seconds.
    pub window_secs: u64,
}

/// A window is expired at `now` once the window length has elapsed.
pub open spec fn window_expired(w: RateLimitWindow, now: u64) -> bool {
    now as int >= w.window_start as int + w.window_secs as int
}

/// The window after the expiry check: reset when expired, else unchanged.
pub open spec fn window_after_reset(w: RateLimitWindow, now: u64) -> RateLimitWindow {
    if window_expired(w, now) {
        RateLimitWindow { requests: 0, window_start: now, ..w }
    } else {
        w
    }
}

/// One admission decision: reset if expired, then admit and count the
/// request iff the counter is below the maximum.
pub open spec fn window_check(w: RateLimitWindow, now: u64) -> (RateLimitWindow, bool) {
    let w1 = window_after_reset(w, now);
    if w1.requests < w1.max_requests {
        (RateLimitWindow { requests: (w1.requests + 1) as u32, ..w1 }, true)
    } else {
        (w1, false)
    }
}

impl RateLimitWindow {
    /// A fresh window starting at `now` with a zero counter.
    pub fn new(max_requests: u32, window_secs: u64, now: u64) -> (r: RateLimitWindow)
        ensures
            r == (RateLimitWindow { requests: 0, window_start: now, max_requests, window_secs }),
    {
        RateLimitWindow { requests: 0, window_start: now, max_requests, window_secs }
    }

    /// Whether the window has expired at `now`.
    pub fn is_expired(&self, now: u64) -> (r: bool)
        ensures
            r == window_expired(*self, now),
    {
        match self.window_start.checked_add(self.window_secs) {
            Some(end) => now >= end,
            None => false,
        }
    }

    /// Resets the counter and the window start when the window expired.
    pub fn reset_if_needed(&mut self, now: u64)
        ensures
            *final(self) == window_after_reset(*old(self), now),
    {
        if self.is_expired(now) {
            self.requests = 0;
            self.window_start = now;
        }
    }

    /// Admits the request iff the counter is below the maximum, counting it
    /// when admitted.  The counter never decreases within a window.
    pub fn check_and_increment(&mut self, now: u64) -> (r: bool)
        ensures
            (*final(self), r) == window_check(*old(self), now),
    {
        self.reset_if_needed(now);
        if self.requests < self.max_requests {
            self.requests = self.requests + 1;
            true
        } else {
            false
        }
    }
}

/// Folds a sequence of admission decisions over one window, counting how
/// many were admitted.
pub open spec fn run_checks(w: RateLimitWindow, times: Seq<u64>) -> (RateLimitWindow, nat)
    decreases times.len(),
{
    if times.len() == 0 {
        (w, 0)
    } else {
        let (w1, ok) = window_check(w, times[0]);
        let (w2, n) = run_checks(w1, times.drop_first());
        (w2, n + if ok { 1nat } else { 0nat })
    }
}

/// The rate limiter admits at most `max_requests` requests per window: for
/// any run of checks whose times all fall before the window's end (so the
/// window never resets), the number admitted on top of those already
/// counted never exceeds the maximum, and the counter grows by exactly the
/// number admitted.
pub proof fn lemma_window_bound(w: RateLimitWindow, times: Seq<u64>)
    requires
        w.requests <= w.max_requests,
        forall|i: int| 0 <= i < times.len() ==> !window_expired(w, #[trigger] times[i]),
    ensures
        ({
            let (w2, n) = run_checks(w, times);
            &&& n + w.requests <= w.max_requests
            &&& w2.requests == w.requests + n
            &&& w2.window_start == w.window_start
            &&& w2.max_requests == w.max_requests
            &&& w2.window_secs == w.window_secs
        }),
    decreases times.len(),
{
    if times.len() > 0 {
        let (w1, ok) = window_check(w, times[0]);
        assert(!window_expired(w, times[0]));
        assert(w1.window_start == w.window_start && w1.window_secs == w.window_secs);
        assert forall|i: int| 0 <= i < times.drop_first().len() implies !window_expired(
            w1,
            #[trigger] times.drop_first()[i],
        ) by {
            assert(times.drop_first()[i] == times[i + 1]);
        }
        lemma_window_bound(w1, times.drop_first());
    }
}

/// Per-tool request limiter over fixed windows.
#[derive(Debug)]
pub struct RateLimiter {
    windows: StrMap<RateLimitWindow>,
    default_max_requests: u32,
    default_window_secs: u64,
}

/// The limiter state after one admission decision for `tool` at `now`:
/// the tool's window (created from the defaults when absent) is put
/// through `window_check` and stored back.
pub open spec fn limiter_check(l: RateLimiter, tool: Seq<char>, now: u64) -> (
    Seq<(Seq<char>, RateLimitWindow)>,
    bool,
) {
    let w = if has_key(l.windows_spec(), tool) {
        value_of(l.windows_spec(), tool)
    } else {
        RateLimitWindow {
            requests: 0,
            window_start: now,
            max_requests: l.default_max_spec(),
            window_secs: l.default_window_spec(),
        }
    };
    let (w2, ok) = window_check(w, now);
    let m = if has_key(l.windows_spec(), tool) {
        l.windows_spec()
    } else {
        l.windows_spec().push((tool, w))
    };
    (m.update(find_key(m, tool)->Some_0, (tool, w2)), ok)
}

impl RateLimiter {
    /// The per-tool windows, as the contracts see them.
    pub closed spec fn windows_spec(&self) -> Seq<(Seq<char>, RateLimitWindow)> {
        self.windows@
    }

    /// The default per-window maximum.
    pub closed spec fn default_max_spec(&self) -> u32 {
        self.default_max_requests
    }

    /// The default window length.
    pub closed spec fn default_window_spec(&self) -> u64 {
        self.default_window_secs
    }

    /// The windows keep unique tool names.
    pub closed spec fn wf(&self) -> bool {
        self.windows.wf()
    }

    /// A limiter with no windows and the given defaults.
    pub fn new(default_max_requests: u32, default_window_secs: u64) -> (r: RateLimiter)
        ensures
            r.windows_spec().len() == 0,
            r.default_max_spec() == default_max_requests,
            r.default_window_spec() == default_window_secs,
            r.wf(),
    {
        RateLimiter { windows: StrMap::new(), default_max_requests, default_window_secs }
    }

    /// Installs a fresh per-tool window with its own limits.
    pub fn set_limit(&mut self, tool: &str, max_requests: u32, window_secs: u64, now: u64)
        ensures
            ({
                let w = RateLimitWindow { requests: 0, window_start: now, max_requests, window_secs };
                match find_key(old(self).windows_spec(), tool@) {
                    Some(i) => final(self).windows_spec() == old(self).windows_spec().update(i, (tool@, w)),
                    None => final(self).windows_spec() == old(self).windows_spec().push((tool@, w)),
                }
            }),
            old(self).wf() ==> final(self).wf(),
            final(self).default_max_spec() == old(self).default_max_spec(),
            final(self).default_window_spec() == old(self).default_window_spec(),
    {
        let w = RateLimitWindow::new(max_requests, window_secs, now);
        self.windows.insert(tool.to_owned(), w);
    }

    /// Decides one request for `tool` at time `now`: finds or creates the
    /// tool's window, resets it if expired, and admits the request iff the
    /// window's counter is below its maximum.  A refusal carries
    /// `RateLimitExceeded`.
    pub fn check_request_at(&mut self, tool: &str, now: u64) -> (r: Result<(), ServerError>)
        requires
            old(self).wf(),
        ensures
            final(self).wf(),
            ({
                let (m, ok) = limiter_check(*old(self), tool@, now);
                &&& final(self).windows_spec() == m
                &&& (r is Ok <==> ok)
            }),
            r matches Err(e) ==> (e matches ServerError::RateLimitExceeded(t) && t@ == tool@),
            final(self).default_max_spec() == old(self).default_max_spec(),
            final(self).default_window_spec() == old(self).default_window_spec(),
    {
        let ghost l0 = *self;
        proof {
            lemma_find_key(self.windows@, tool@);
        }
        let mut w: RateLimitWindow = match self.windows.get(tool) {
            Some(w0) => *w0,
            None => {
                let w0 = RateLimitWindow::new(
                    self.default_max_requests,
                    self.default_window_secs,
                    now,
                );
                self.windows.insert(tool.to_owned(), w0);
                w0
            },
        };
        let ghost m_mid = self.windows@;
        proof {
            if has_key(l0.windows_spec(), tool@) {
                assert(m_mid == l0.windows_spec());
                assert(w == value_of(l0.windows_spec(), tool@));
            } else {
                assert(m_mid == l0.windows_spec().push((tool@, w)));
                assert(m_mid[m_mid.len() - 1].0 == tool@);
                assert(has_key(m_mid, tool@));
            }
            lemma_find_key(m_mid, tool@);
        }
        let ok = w.check_and_increment(now);
        self.windows.insert(tool.to_owned(), w);
        proof {
            assert(self.windows@ == m_mid.update(find_key(m_mid, tool@)->Some_0, (tool@, w)));
        }
        if ok {
            Ok(())
        } else {
            let mut out: Vec<char> = Vec::new();
            push_str_chars(&mut out, "rate limit exceeded for tool ");
            push_str_chars(&mut out, tool);
            let _ = out;
            Err(ServerError::RateLimitExceeded(tool.to_owned()))
        }
    }

    /// Decides one request for `tool` at the clock's current second.
    pub fn check_request(&mut self, tool: &str) -> (r: Result<(), ServerError>)
        requires
            old(self).wf(),
        ensures
            final(self).wf(),
            exists|now: u64|
                {
                    let (m, ok) = #[trigger] limiter_check(*old(self), tool@, now);
                    &&& final(self).windows_spec() == m
                    &&& (r is Ok <==> ok)
                },
            r matches Err(e) ==> (e matches ServerError::RateLimitExceeded(t) && t@ == tool@),
    {
        let now = current_timestamp();
        self.check_request_at(tool, now)
    }

    /// The current counter, maximum and window length for `tool`.
    pub fn get_stats(&self, tool: &str) -> (r: Option<(u32, u32, u64)>)
        ensures
            match r {
                Some(t) => has_key(self.windows_spec(), tool@) && ({
                    let w = value_of(self.windows_spec(), tool@);
                    t == (w.requests, w.max_requests, w.window_secs)
                }),
                None => !has_key(self.windows_spec(), tool@),
            },
    {
        match self.windows.get(tool) {
            Some(w) => Some((w.requests, w.max_requests, w.window_secs)),
            None => None,
        }
    }

    /// Drops every window.
    pub fn reset_all(&mut self)
        ensures
            final(self).windows_spec().len() == 0,
            final(self).wf(),
    {
        self.windows.clear();
    }
}

} // verus!
