//! A minimum-interval gate: successive admissions are at least the
//! configured interval apart, and no later than needed.
use vstd::prelude::*;

verus! {

/// The pacing state of one rate-limited service. Times are milliseconds
/// of a monotonic clock.
#[derive(Debug, Clone)]
pub struct RateGate {
    pub min_interval_ms: u64,
    /// When the last caller was admitted; `None` before the first one.
    pub last_ms: Option<u64>,
}

/// How long a caller arriving at `now` waits before it is admitted.
pub open spec fn gate_delay(last: Option<u64>, now: u64, interval: u64) -> nat {
    match last {
        None => 0,
        Some(l) => {
            let elapsed: nat = if now >= l {
                (now - l) as nat
            } else {
                0
            };
            if elapsed < interval {
                (interval - elapsed) as nat
            } else {
                0
            }
        },
    }
}

impl RateGate {
    /// A gate that admits its first caller at once.
    pub fn new(min_interval_ms: u64) -> (r: RateGate)
        ensures
            r.min_interval_ms == min_interval_ms,
            r.last_ms is None,
    {
        RateGate { min_interval_ms, last_ms: None }
    }

    /// The wait of a caller arriving at `now_ms`: what is left of the
    /// interval since the last admission.
    pub fn delay_ms(&self, now_ms: u64) -> (r: u64)
        ensures
            r == gate_delay(self.last_ms, now_ms, self.min_interval_ms),
            r <= self.min_interval_ms,
    {
        match self.last_ms {
            None => 0,
            Some(l) => {
                let elapsed: u64 = if now_ms >= l {
                    now_ms - l
                } else {
                    0
                };
                if elapsed < self.min_interval_ms {
                    self.min_interval_ms - elapsed
                } else {
                    0
                }
            },
        }
    }

    /// Stamps an admission at `now_ms`.
    pub fn stamp(&mut self, now_ms: u64)
        ensures
            final(self).min_interval_ms == old(self).min_interval_ms,
            final(self).last_ms == Some(now_ms),
    {
        self.last_ms = Some(now_ms);
    }
}

/// A caller that arrives at `now` after the admission at `last`, waits the
/// gate's delay and is admitted at `admitted` is admitted at least the
/// interval after `last`; when the interval had not yet passed, waiting
/// exactly the delay admits it exactly when the interval ends, and
/// otherwise it does not wait at all.
pub proof fn lemma_gate_pacing(last: u64, now: u64, admitted: u64, interval: u64)
    requires
        last <= now,
        now + gate_delay(Some(last), now, interval) <= admitted,
    ensures
        admitted - last >= interval,
        now - last < interval ==> now + gate_delay(Some(last), now, interval) == last + interval,
        now - last >= interval ==> gate_delay(Some(last), now, interval) == 0,
{
}

} // verus!
