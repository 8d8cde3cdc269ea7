//! A sliding-window rate limiter for outgoing LLM requests, shared
//! server-wide: at most `max_per_window` requests in any window.

use vstd::prelude::*;

verus! {

/// The window of the limiter, one minute.
pub const WINDOW_MS: u64 = 60_000;

/// Whether a request admitted at `t` is still inside the window at `now`.
pub open spec fn in_window(now: u64) -> spec_fn(u64) -> bool {
    |t: u64| now - t < WINDOW_MS
}

/// The requests admitted within the current window, oldest first.
pub struct RateLimiter {
    max_per_window: usize,
    recent: Vec<u64>,
}

impl RateLimiter {
    #[verifier::type_invariant]
    spec fn inv(self) -> bool {
        &&& self.max_per_window >= 1
        &&& self.recent@.len() <= self.max_per_window
        &&& forall|i: int, j: int| 0 <= i <= j < self.recent@.len() ==> self.recent@[i] <= self.recent@[j]
    }

    /// The admitted requests' times, oldest first.
    pub closed spec fn recent(&self) -> Seq<u64> {
        self.recent@
    }

    /// The most requests admitted per window.
    pub closed spec fn limit(&self) -> nat {
        self.max_per_window as nat
    }

    /// A limiter admitting `max_per_minute` requests per minute (at least one).
    pub fn per_minute(max_per_minute: usize) -> (r: RateLimiter)
        ensures
            r.limit() == if max_per_minute >= 1 {
                max_per_minute as nat
            } else {
                1
            },
            r.recent().len() == 0,
    {
        RateLimiter { max_per_window: if max_per_minute >= 1 { max_per_minute } else { 1 }, recent: Vec::new() }
    }

    /// Asks for a slot at time `now` (milliseconds on a monotonic clock):
    /// drops the requests that aged out of the window, then admits the request
    /// (`None`) when there is room, or says how long to wait for the oldest
    /// one to leave (`Some(ms)`).
    pub fn try_acquire(&mut self, now: u64) -> (r: Option<u64>)
        requires
            forall|i: int| 0 <= i < old(self).recent().len() ==> old(self).recent()[i] <= now,
        ensures
            final(self).limit() == old(self).limit(),
            // What stays is what is younger than the window, in order.
            ({
                let kept = crate::workspace::keep(old(self).recent(), in_window(now));
                match r {
                    None => kept.len() < old(self).limit() && final(self).recent() == kept.push(now),
                    Some(wait) => kept.len() >= old(self).limit() && final(self).recent() == kept && wait
                        == WINDOW_MS - (now - kept[0]) && 0 < wait <= WINDOW_MS,
                }
            }),
            // Never more than the limit inside one window.
            final(self).recent().len() <= final(self).limit(),
            forall|i: int| 0 <= i < final(self).recent().len() ==> now - #[trigger] final(self).recent()[i] < WINDOW_MS,
    {
        proof {
            use_type_invariant(&*self);
        }
        let mut recent: Vec<u64> = Vec::new();
        core::mem::swap(&mut recent, &mut self.recent);
        let ghost old_recent = recent@;
        assert(old_recent == old(self).recent@);
        let ghost f = in_window(now);
        assert forall|i: int| 0 <= i < recent@.len() implies recent@[i] <= now by {
            assert(old(self).recent()[i] <= now);
        }
        // The recent times are ordered, so the aged-out ones lead.
        while recent.len() > 0 && now - recent[0] >= WINDOW_MS
            invariant
                f == in_window(now),
                crate::workspace::keep(old_recent, f) == crate::workspace::keep(recent@, f),
                forall|i: int, j: int| 0 <= i <= j < recent@.len() ==> recent@[i] <= recent@[j],
                forall|i: int| 0 <= i < recent@.len() ==> recent@[i] <= now,
                recent@.len() <= old_recent.len(),
            decreases recent@.len(),
        {
            let ghost before = recent@;
            recent.remove(0);
            assert(before.drop_first() =~= recent@);
            assert(!f(before[0]));
            assert(crate::workspace::keep(before, f) == crate::workspace::keep(before.drop_first(), f));
        }
        proof {
            assert forall|j: int| 0 <= j < recent@.len() implies f(#[trigger] recent@[j]) by {
                assert(recent@[0] <= recent@[j]);
            }
            crate::workspace::lemma_keep_all(recent@, f);
        }
        if recent.len() < self.max_per_window {
            recent.push(now);
            self.recent = recent;
            None
        } else {
            let wait = WINDOW_MS - (now - recent[0]);
            self.recent = recent;
            Some(wait)
        }
    }
}

} // verus!
