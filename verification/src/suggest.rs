//! When a group's conversation starters are regenerated: never two refreshes
//! at once, at most one start per cooldown, and (unless forced) only when the
//! cached set has gone stale.

use vstd::prelude::*;
use vstd::string::*;

use crate::models::{opt_view, GroupSuggestions};

verus! {

/// The least time between two refresh starts for one group.
pub const SUGGEST_COOLDOWN_MS: i64 = 6000;

/// A group's refresh gate.
#[derive(Clone, Copy, Debug, PartialEq, Eq, Structural)]
pub struct SuggestGate {
    /// A refresh is running.
    pub in_flight: bool,
    /// When the last refresh started, epoch milliseconds.
    pub last_started_ms: i64,
}

/// Whether a gate lets a refresh start now: nothing running, the cooldown
/// over, and either forced or stale. A forced request still waits for both.
pub open spec fn spec_may_start(g: SuggestGate, now: i64, force: bool, stale: bool) -> bool {
    &&& !g.in_flight
    &&& now - g.last_started_ms >= SUGGEST_COOLDOWN_MS
    &&& (force || stale)
}

impl SuggestGate {
    /// A gate that has never started a refresh.
    pub fn new() -> (g: SuggestGate)
        ensures
            !g.in_flight,
            g.last_started_ms == 0,
    {
        SuggestGate { in_flight: false, last_started_ms: 0 }
    }

    /// Lets a refresh start when it may, and says whether it did.
    pub fn try_start(&mut self, now: i64, force: bool, stale: bool) -> (started: bool)
        ensures
            started == spec_may_start(*old(self), now, force, stale),
            started ==> *final(self) == (SuggestGate { in_flight: true, last_started_ms: now }),
            !started ==> *final(self) == *old(self),
    {
        let elapsed: i128 = (now as i128) - (self.last_started_ms as i128);
        if self.in_flight || elapsed < (SUGGEST_COOLDOWN_MS as i128) {
            return false;
        }
        if !force && !stale {
            return false;
        }
        self.in_flight = true;
        self.last_started_ms = now;
        true
    }

    /// Marks the running refresh as over, whatever its outcome.
    pub fn finish(&mut self)
        ensures
            *final(self) == (SuggestGate { in_flight: false, ..*old(self) }),
    {
        self.in_flight = false;
    }
}

/// Two refreshes never run at once: while one is in flight, no request,
/// forced or not, starts another.
pub proof fn lemma_single_flight(g: SuggestGate, now: i64, force: bool, stale: bool)
    requires
        g.in_flight,
    ensures
        !spec_may_start(g, now, force, stale),
{
}

/// Two starts are at least a cooldown apart: after a start at `t`, even once
/// that refresh has finished, nothing starts before `t` plus the cooldown.
pub proof fn lemma_cooldown(g: SuggestGate, t: i64, now: i64, force: bool, stale: bool)
    requires
        g.last_started_ms == t,
        now - t < SUGGEST_COOLDOWN_MS,
    ensures
        !spec_may_start(g, now, force, stale),
        !spec_may_start(SuggestGate { in_flight: false, ..g }, now, force, stale),
{
}

/// Whether a cached set no longer fits: none generated yet, the conversation
/// moved on since, or the part of day changed.
pub open spec fn spec_is_stale(cached: GroupSuggestions, last_id: Option<Seq<char>>, bucket: Seq<char>) -> bool {
    ||| cached.generated_at == 0
    ||| opt_view(cached.through_id) != last_id
    ||| cached.time_of_day@ != bucket
}

fn same_opt(a: &Option<String>, b: &Option<String>) -> (r: bool)
    ensures
        r == (opt_view(*a) == opt_view(*b)),
{
    match (a, b) {
        (None, None) => true,
        (Some(x), Some(y)) => *x == *y,
        _ => false,
    }
}

/// Whether the cached suggestions are stale against the latest conversation
/// line and the current part of day.
pub fn is_stale(cached: &GroupSuggestions, last_id: &Option<String>, bucket: &str) -> (r: bool)
    ensures
        r == spec_is_stale(*cached, opt_view(*last_id), bucket@),
{
    cached.generated_at == 0 || !same_opt(&cached.through_id, last_id) || !(cached.time_of_day == String::from_str(bucket))
}

/// The part of day an hour (0 to 23, local time) falls in.
pub open spec fn spec_time_of_day(hour: u32) -> Seq<char> {
    if 5 <= hour < 12 {
        "morning"@
    } else if 12 <= hour < 17 {
        "afternoon"@
    } else if 17 <= hour < 22 {
        "evening"@
    } else {
        "night"@
    }
}

/// The coarse part of day suggestions are tuned for: `morning`, `afternoon`,
/// `evening` or `night`.
pub fn time_of_day(hour: u32) -> (r: &'static str)
    ensures
        r@ == spec_time_of_day(hour),
{
    if 5 <= hour && hour < 12 {
        "morning"
    } else if 12 <= hour && hour < 17 {
        "afternoon"
    } else if 17 <= hour && hour < 22 {
        "evening"
    } else {
        "night"
    }
}

} // verus!
