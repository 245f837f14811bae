//! The reconnecting connection's decision state: the health flag, the
//! retry budget and the backoff schedule.  The transport itself (sockets,
//! reads, writes) lives outside the library and reports its outcomes here.

use vstd::prelude::*;

verus! {

/// The backoff cap, in milliseconds.
pub open spec fn backoff_cap() -> int {
    3600000
}

/// Two to the `n`th power.
pub open spec fn pow2(n: nat) -> nat
    decreases n,
{
    if n == 0 {
        1
    } else {
        2 * pow2((n - 1) as nat)
    }
}

/// Powers of two are positive.
pub proof fn lemma_pow2_pos(n: nat)
    ensures
        pow2(n) >= 1,
    decreases n,
{
    if n > 0 {
        lemma_pow2_pos((n - 1) as nat);
    }
}

/// The backoff before retry `attempt`: the initial backoff doubled per
/// attempt, capped at one hour.
pub open spec fn backoff_spec(initial: u64, attempt: nat) -> int {
    let raw = initial * pow2(attempt);
    if raw >= backoff_cap() {
        backoff_cap()
    } else {
        raw as int
    }
}

/// The connection's decision state: whether the transport is believed
/// healthy, and how reconnects are paced.  The flag moves to true only on
/// a successful connect and to false only on a transport error or an
/// explicit close.
#[derive(Debug, Clone, Copy)]
pub struct ConnectionState {
    pub connected: bool,
    pub reconnect_attempts: u32,
    pub reconnect_backoff_ms: u64,
}

impl ConnectionState {
    /// Whether the transport is believed healthy.
    pub open spec fn connected_spec(&self) -> bool {
        self.connected
    }

    /// A fresh, not yet connected state.
    pub fn new(reconnect_attempts: u32, reconnect_backoff_ms: u64) -> (r: ConnectionState)
        ensures
            !r.connected_spec(),
            r.reconnect_attempts == reconnect_attempts,
            r.reconnect_backoff_ms == reconnect_backoff_ms,
    {
        ConnectionState { connected: false, reconnect_attempts, reconnect_backoff_ms }
    }

    /// Reads the health flag; no transport work.
    pub fn is_healthy(&self) -> (r: bool)
        ensures
            r == self.connected_spec(),
    {
        self.connected
    }

    /// Records a successful connect: the only transition to healthy.
    pub fn mark_connected(&mut self)
        ensures
            final(self).connected_spec(),
            final(self).reconnect_attempts == old(self).reconnect_attempts,
            final(self).reconnect_backoff_ms == old(self).reconnect_backoff_ms,
    {
        self.connected = true;
    }

    /// Records a transport error or an explicit close: the only
    /// transition to unhealthy.
    pub fn mark_disconnected(&mut self)
        ensures
            !final(self).connected_spec(),
            final(self).reconnect_attempts == old(self).reconnect_attempts,
            final(self).reconnect_backoff_ms == old(self).reconnect_backoff_ms,
    {
        self.connected = false;
    }

    /// The backoff to sleep before retry `attempt`, in milliseconds:
    /// exponential from the initial backoff, capped at one hour.
    pub fn backoff_for_attempt(&self, attempt: u32) -> (r: u64)
        ensures
            r as int == backoff_spec(self.reconnect_backoff_ms, attempt as nat),
            r <= 3600000,
    {
        let mut b: u64 = self.reconnect_backoff_ms;
        if b >= 3600000 {
            proof {
                lemma_pow2_pos(attempt as nat);
                assert(self.reconnect_backoff_ms * pow2(attempt as nat)
                    >= self.reconnect_backoff_ms) by (nonlinear_arith)
                    requires
                        pow2(attempt as nat) >= 1,
                ;
            }
            return 3600000;
        }
        proof {
            assert(pow2(0) == 1);
            assert(self.reconnect_backoff_ms * pow2(0) == self.reconnect_backoff_ms)
                by (nonlinear_arith)
                requires
                    pow2(0) == 1,
            ;
        }
        let mut k: u32 = 0;
        while k < attempt
            invariant
                0 <= k <= attempt,
                b as int == backoff_spec(self.reconnect_backoff_ms, k as nat),
                b <= 3600000,
            decreases attempt - k,
        {
            let nb: u64 = if b >= 1800000 {
                3600000
            } else {
                b * 2
            };
            proof {
                assert(pow2(k as nat + 1) == 2 * pow2(k as nat));
                assert(self.reconnect_backoff_ms * pow2(k as nat + 1) == 2 * (
                self.reconnect_backoff_ms * pow2(k as nat))) by (nonlinear_arith);
                let raw = self.reconnect_backoff_ms * pow2(k as nat);
                if raw >= backoff_cap() {
                    assert(2 * raw >= backoff_cap());
                } else {
                    assert(b == raw);
                }
            }
            b = nb;
            k = k + 1;
        }
        b
    }
}

} // verus!
