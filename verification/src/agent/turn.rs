//! The rules of a multi-agent turn: who runs in which order, how a decision is
//! routed to the two streams, when a round leads to another, how events that
//! arrive mid-turn are handled, and how a retry resumes a suspended turn.
//!
//! The turn itself (awaiting each brain, watching the event channel) runs in
//! the server; every choice it makes is one of the functions here.

use vstd::prelude::*;
use vstd::multiset::*;

use crate::agent::brain::{Action, Respond};
use crate::agent::event::{appraise, spec_appraise, spec_context_of, Event, Salience};
use crate::text::{contains_string, views};

verus! {

/// The wire label for an action, as the debug trace reports it.
pub open spec fn spec_action_label(action: Action) -> Seq<char> {
    match action {
        Action::Speak => "speak"@,
        Action::SpeakWithMood => "speakWithMood"@,
        Action::Mood => "mood"@,
        Action::Read => "read"@,
    }
}

/// The wire label for an action (matching the TypeScript action names).
pub fn action_label(action: Action) -> (r: &'static str)
    ensures
        r@ == spec_action_label(action),
{
    match action {
        Action::Speak => "speak",
        Action::SpeakWithMood => "speakWithMood",
        Action::Mood => "mood",
        Action::Read => "read",
    }
}

/// Tunables for the loop.
#[derive(Clone, Debug)]
pub struct LoopConfig {
    /// Hard cap on sweeps of the member list per triggering message.
    pub max_rounds: usize,
    /// Cosmetic delay between a mood and its message, in ms.
    pub pace_ms: u64,
    /// Shuffle seed; `None` seeds from the clock.
    pub seed: Option<u64>,
}

impl LoopConfig {
    /// One round, 450 ms pacing, a clock seed.
    pub fn default_config() -> (c: LoopConfig)
        ensures
            c.max_rounds == 1,
            c.pace_ms == 450,
            c.seed is None,
    {
        LoopConfig { max_rounds: 1, pace_ms: 450, seed: None }
    }
}

/// A tiny SplitMix64 generator: deterministic when seeded.
pub struct Rng {
    pub state: u64,
}

/// The SplitMix64 step increment.
pub const GOLDEN_GAMMA: u64 = 0x9E37_79B9_7F4A_7C15;

/// SplitMix64's output mix of a state.
pub open spec fn spec_splitmix_out(s: u64) -> u64 {
    let z1 = vstd::wrapping::u64_specs::wrapping_mul(s ^ (s >> 30u64), 0xBF58_476D_1CE4_E5B9);
    let z2 = vstd::wrapping::u64_specs::wrapping_mul(z1 ^ (z1 >> 27u64), 0x94D0_49BB_1331_11EB);
    z2 ^ (z2 >> 31u64)
}

impl Rng {
    /// A generator starting from `seed`.
    pub fn new(seed: u64) -> (r: Rng)
        ensures
            r.state == seed,
    {
        Rng { state: seed }
    }

    /// The next 64-bit output.
    pub fn next_u64(&mut self) -> (r: u64)
        ensures
            final(self).state == vstd::wrapping::u64_specs::wrapping_add(old(self).state, GOLDEN_GAMMA),
            r == spec_splitmix_out(final(self).state),
    {
        self.state = self.state.wrapping_add(GOLDEN_GAMMA);
        let mut z = self.state;
        z = (z ^ (z >> 30u64)).wrapping_mul(0xBF58_476D_1CE4_E5B9);
        z = (z ^ (z >> 27u64)).wrapping_mul(0x94D0_49BB_1331_11EB);
        z ^ (z >> 31u64)
    }

    /// A value below `n` (0 when `n` is 0).
    pub fn below(&mut self, n: usize) -> (r: usize)
        ensures
            n == 0 ==> r == 0 && final(self).state == old(self).state,
            n > 0 ==> r < n && final(self).state == vstd::wrapping::u64_specs::wrapping_add(
                old(self).state,
                GOLDEN_GAMMA,
            ) && r == spec_splitmix_out(final(self).state) % (n as u64),
    {
        if n == 0 {
            0
        } else {
            let x = self.next_u64();
            (x % (n as u64)) as usize
        }
    }
}

/// Swaps two positions of a sequence.
pub open spec fn spec_swap<A>(s: Seq<A>, i: int, j: int) -> Seq<A> {
    s.update(i, s[j]).update(j, s[i])
}

proof fn lemma_swap_multiset<A>(s: Seq<A>, i: int, j: int)
    requires
        0 <= i < s.len(),
        0 <= j < s.len(),
    ensures
        spec_swap(s, i, j).to_multiset() == s.to_multiset(),
        spec_swap(s, i, j).len() == s.len(),
{
    broadcast use vstd::seq_lib::to_multiset_update;
    broadcast use vstd::multiset::group_multiset_axioms;
    broadcast use vstd::seq_lib::group_to_multiset_ensures;

    let a = s[i];
    let b = s[j];
    let m = s.to_multiset();
    let s1 = s.update(i, b);
    assert(s1.to_multiset() == m.insert(b).remove(a));
    assert(s1[j] == b);
    assert(spec_swap(s, i, j).to_multiset() == s1.to_multiset().insert(a).remove(b));
    assert(s.contains(a));
    assert(m.count(a) > 0);
    assert forall|x: A| #[trigger] spec_swap(s, i, j).to_multiset().count(x) == m.count(x) by {
        if x == a && x == b {
        } else if x == a {
        } else if x == b {
        } else {
        }
    }
    assert(spec_swap(s, i, j).to_multiset() =~= m);
}

fn swap_strings(v: &mut Vec<String>, i: usize, j: usize)
    requires
        i < old(v)@.len(),
        j < old(v)@.len(),
    ensures
        final(v)@ == spec_swap(old(v)@, i as int, j as int),
{
    let a = v[i].clone();
    let b = v[j].clone();
    v.set(i, b);
    v.set(j, a);
}

/// The Fisher–Yates passes from position `i` down to 1: each pass advances
/// the generator once and swaps position `k` with the draw below `k + 1`.
/// Gives the rearranged sequence and the generator state after the passes.
pub open spec fn spec_fisher_yates(s: Seq<String>, state: u64, i: nat) -> (Seq<String>, u64)
    decreases i,
{
    if i == 0 {
        (s, state)
    } else {
        let next = vstd::wrapping::u64_specs::wrapping_add(state, GOLDEN_GAMMA);
        let j = spec_splitmix_out(next) % ((i + 1) as u64);
        spec_fisher_yates(spec_swap(s, i as int, j as int), next, (i - 1) as nat)
    }
}

/// The order a shuffle gives, and the generator state after it: fewer than
/// two members are left as they are and draw nothing.
pub open spec fn spec_shuffle(s: Seq<String>, state: u64) -> (Seq<String>, u64) {
    if s.len() < 2 {
        (s, state)
    } else {
        spec_fisher_yates(s, state, (s.len() - 1) as nat)
    }
}

/// Fisher–Yates shuffle of the member order with [`Rng`]: the result is a
/// rearrangement of the input — the same members, each as often as before —
/// fixed by the generator's state, which advances once per pass.
pub fn shuffle(items: &mut Vec<String>, rng: &mut Rng)
    ensures
        final(items)@ == spec_shuffle(old(items)@, old(rng).state).0,
        final(rng).state == spec_shuffle(old(items)@, old(rng).state).1,
        final(items)@.len() == old(items)@.len(),
        final(items)@.to_multiset() == old(items)@.to_multiset(),
{
    let n = items.len();
    if n < 2 {
        return;
    }
    let mut i: usize = n - 1;
    while i >= 1
        invariant
            n == items@.len(),
            i < n,
            items@.to_multiset() == old(items)@.to_multiset(),
            n == old(items)@.len(),
            n >= 2,
            spec_fisher_yates(items@, rng.state, i as nat) == spec_fisher_yates(
                old(items)@,
                old(rng).state,
                (n - 1) as nat,
            ),
        decreases i,
    {
        let ghost before = items@;
        let ghost st = rng.state;
        let j = rng.below(i + 1);
        assert(spec_fisher_yates(before, st, i as nat) == spec_fisher_yates(
            spec_swap(before, i as int, j as int),
            rng.state,
            (i - 1) as nat,
        ));
        proof {
            lemma_swap_multiset(items@, i as int, j as int);
        }
        swap_strings(items, i, j);
        i = i - 1;
    }
}

/// The persona ids of `order` that are not in `read_by`, in order.
pub open spec fn spec_unread(order: Seq<String>, read_by: Seq<String>) -> Seq<String>
    decreases order.len(),
{
    if order.len() == 0 {
        order
    } else if views(read_by).contains(order.last()@) {
        spec_unread(order.drop_last(), read_by)
    } else {
        spec_unread(order.drop_last(), read_by).push(order.last())
    }
}

/// On a resumed turn, keeps only the members that have not yet read the
/// pending message, in their original order — the ones a retry re-runs.
pub fn unread_members(order: Vec<String>, read_by: &Vec<String>) -> (r: Vec<String>)
    ensures
        r@ == spec_unread(order@, read_by@),
{
    let mut out: Vec<String> = Vec::new();
    let mut i: usize = 0;
    while i < order.len()
        invariant
            i <= order@.len(),
            out@ == spec_unread(order@.subrange(0, i as int), read_by@),
        decreases order@.len() - i,
    {
        let pid = order[i].clone();
        assert(order@.subrange(0, i + 1).drop_last() =~= order@.subrange(0, i as int));
        if !contains_string(read_by, pid.as_str()) {
            out.push(pid);
        }
        i = i + 1;
    }
    assert(order@.subrange(0, order@.len() as int) =~= order@);
    out
}

/// Where one agent's decision goes: a mood (UI only), then a spoken line
/// (Context Stream and UI), and whether the agent spoke.
#[derive(Clone, Debug)]
pub struct Routing {
    pub mood: Option<String>,
    pub message: Option<String>,
    pub spoke: bool,
}

/// The routing rule: a line goes out for speak / speak-with-mood, a mood for
/// mood / speak-with-mood, nothing for read; the agent spoke exactly when a
/// line went out.
pub open spec fn spec_route(r: Respond) -> Routing {
    match r.action {
        Action::Speak => Routing { mood: None, message: r.message, spoke: r.message is Some },
        Action::SpeakWithMood => Routing { mood: r.mood, message: r.message, spoke: r.message is Some },
        Action::Mood => Routing { mood: r.mood, message: None, spoke: false },
        Action::Read => Routing { mood: None, message: None, spoke: false },
    }
}

/// Routes a decision to the two streams.
pub fn route(r: Respond) -> (out: Routing)
    ensures
        out == spec_route(r),
{
    match r.action {
        Action::Speak => {
            let spoke = r.message.is_some();
            Routing { mood: None, message: r.message, spoke }
        },
        Action::SpeakWithMood => {
            let spoke = r.message.is_some();
            Routing { mood: r.mood, message: r.message, spoke }
        },
        Action::Mood => Routing { mood: r.mood, message: None, spoke: false },
        Action::Read => Routing { mood: None, message: None, spoke: false },
    }
}

/// How a decision reaches the chat: a speak or speak-with-mood decision puts
/// out exactly its line and counts as speaking exactly when it carries one;
/// a mood or a read never puts out a line nor counts as speaking; a mood
/// shows only with a mood or speak-with-mood decision, and then it is the
/// decision's own. Counting as speaking always comes with a line.
pub proof fn lemma_route_delivers_the_decision(r: Respond)
    ensures
        (r.action is Speak || r.action is SpeakWithMood) ==> spec_route(r).message == r.message
            && spec_route(r).spoke == (r.message is Some),
        (r.action is Mood || r.action is Read) ==> spec_route(r).message is None && !spec_route(r).spoke,
        (r.action is Mood || r.action is SpeakWithMood) ==> spec_route(r).mood == r.mood,
        (r.action is Speak || r.action is Read) ==> spec_route(r).mood is None,
        spec_route(r).spoke == (spec_route(r).message is Some),
{
}

/// A mood never reaches the Context Stream: whatever an agent decides, the
/// only text routed to the conversation is its spoken line.
pub proof fn lemma_moods_stay_out_of_context(r: Respond)
    ensures
        spec_route(r).message is Some ==> spec_route(r).message == r.message,
        r.action == Action::Mood || r.action == Action::Read ==> spec_route(r).message is None,
{
}

/// The number of rounds a turn may run: `max_rounds`, at least one.
pub open spec fn spec_round_cap(max_rounds: usize) -> int {
    if max_rounds == 0 {
        1
    } else {
        max_rounds as int
    }
}

/// Whether the turn runs another round after round `round` (0-based): only
/// when someone spoke and the cap is not reached.
pub open spec fn spec_continue_turn(spoke: bool, round: usize, max_rounds: usize) -> bool {
    spoke && round + 1 < spec_round_cap(max_rounds)
}

/// Decides whether a finished round leads to another.
pub fn continue_turn(spoke: bool, round: usize, max_rounds: usize) -> (r: bool)
    ensures
        r == spec_continue_turn(spoke, round, max_rounds),
{
    let cap: usize = if max_rounds == 0 {
        1
    } else {
        max_rounds
    };
    spoke && round < cap - 1
}

/// A fully silent round always ends the turn, and no turn runs past its cap:
/// round `round` leads to another only if it is below `cap - 1`.
pub proof fn lemma_turn_terminates(spoke: bool, round: usize, max_rounds: usize)
    ensures
        !spoke ==> !spec_continue_turn(spoke, round, max_rounds),
        spec_continue_turn(spoke, round, max_rounds) ==> round + 1 < spec_round_cap(max_rounds),
{
}

/// A turn's rounds as the rule allows them: at least one, and each round but
/// the last led to another only where [`continue_turn`] says so. `spoke[r]`
/// is whether anyone spoke in round `r`.
pub open spec fn spec_rounds_follow_rule(spoke: Seq<bool>, max_rounds: usize) -> bool {
    &&& spoke.len() >= 1
    &&& forall|r: int| 0 <= r < spoke.len() - 1 ==> #[trigger] spec_continue_turn(spoke[r], r as usize, max_rounds)
}

/// The total of a sequence of counts.
pub open spec fn spec_total(counts: Seq<int>) -> int
    decreases counts.len(),
{
    if counts.len() == 0 {
        0
    } else {
        spec_total(counts.drop_last()) + counts.last()
    }
}

proof fn lemma_total_bound(counts: Seq<int>, n: int)
    requires
        forall|r: int| 0 <= r < counts.len() ==> 0 <= #[trigger] counts[r] <= n,
    ensures
        spec_total(counts) <= counts.len() * n,
    decreases counts.len(),
{
    if counts.len() > 0 {
        let t = counts.drop_last();
        assert forall|r: int| 0 <= r < t.len() implies 0 <= #[trigger] t[r] <= n by {
            assert(t[r] == counts[r]);
        }
        lemma_total_bound(t, n);
        assert(counts.last() == counts[counts.len() - 1]);
        assert(t.len() * n + n == counts.len() * n) by (nonlinear_arith)
            requires
                t.len() + 1 == counts.len(),
        ;
    }
}

/// The bounded-cost guarantee, over any run of a turn: when the rounds
/// follow the rule and each asks at most the `n` members once, the turn runs
/// at most `cap` rounds, every round but the last had someone speak (a
/// silent round is the last), and the inferences total at most `cap × n`.
pub proof fn lemma_inference_bound(spoke: Seq<bool>, asked: Seq<int>, n: int, max_rounds: usize)
    requires
        spec_rounds_follow_rule(spoke, max_rounds),
        spoke.len() <= usize::MAX,
        asked.len() == spoke.len(),
        forall|r: int| 0 <= r < asked.len() ==> 0 <= #[trigger] asked[r] <= n,
    ensures
        spoke.len() <= spec_round_cap(max_rounds),
        forall|r: int| 0 <= r < spoke.len() - 1 ==> #[trigger] spoke[r],
        spec_total(asked) <= spec_round_cap(max_rounds) * n,
{
    let len = spoke.len() as int;
    if len >= 2 {
        assert(spec_continue_turn(spoke[len - 2], (len - 2) as usize, max_rounds));
    }
    assert forall|r: int| 0 <= r < spoke.len() - 1 implies #[trigger] spoke[r] by {
        assert(spec_continue_turn(spoke[r], r as usize, max_rounds));
    }
    lemma_total_bound(asked, n);
    if n >= 0 {
        assert(len * n <= spec_round_cap(max_rounds) * n) by (nonlinear_arith)
            requires
                0 <= n,
                len <= spec_round_cap(max_rounds),
        ;
    } else {
        assert(asked[0] <= n);
    }
}

/// What the running turn does with an event that arrived while an agent was
/// thinking.
#[derive(Clone, Debug)]
pub enum Interrupt {
    /// Abort the in-flight agent, discard its output, restart with this event.
    Preempt(Event),
    /// Keep the agent running; fold this text in at the next boundary.
    Defer(Option<String>),
    /// Drop the event.
    Drop,
}

/// The interrupt rule: a hard event preempts; a soft one is deferred with
/// its context text; an ignorable one is dropped.
pub open spec fn spec_interrupt(ev: Event) -> Interrupt {
    match spec_appraise(ev) {
        Salience::Hard => Interrupt::Preempt(ev),
        Salience::Soft => Interrupt::Defer(
            match ev {
                Event::Environment { description, .. } => Some(description),
                _ => None,
            },
        ),
        Salience::Ignore => Interrupt::Drop,
    }
}

/// Decides what to do with an event that arrives mid-inference.
pub fn on_interrupt(ev: Event) -> (r: Interrupt)
    ensures
        r == spec_interrupt(ev),
{
    match appraise(&ev) {
        Salience::Hard => Interrupt::Preempt(ev),
        Salience::Soft => {
            let text = match ev {
                Event::Environment { description, .. } => Some(description),
                _ => None,
            };
            Interrupt::Defer(text)
        },
        Salience::Ignore => Interrupt::Drop,
    }
}

/// Only a hard event ever cuts the running agent off: a soft event is never
/// a preemption, and a user message always is.
pub proof fn lemma_only_hard_events_preempt(ev: Event)
    ensures
        spec_interrupt(ev) is Preempt <==> spec_appraise(ev) == Salience::Hard,
        ev is User ==> spec_interrupt(ev) is Preempt,
{
}

/// The line every agent marks as read this turn: the user's message, if the
/// trigger is one.
pub fn read_target(trigger: &Event) -> (r: Option<String>)
    ensures
        trigger matches Event::User { message_id } ==> r == Some(*message_id),
        !(trigger is User) ==> r is None,
{
    match trigger {
        Event::User { message_id } => Some(message_id.clone()),
        _ => None,
    }
}

/// The environment text a trigger seeds the context with.
pub fn seed_events(trigger: &Event) -> (r: Vec<String>)
    ensures
        trigger matches Event::Environment { description, .. } ==> r@ == seq![*description],
        !(trigger is Environment) ==> r@.len() == 0,
{
    let mut v: Vec<String> = Vec::new();
    match trigger {
        Event::Environment { description, .. } => {
            v.push(description.clone());
        },
        _ => {},
    }
    v
}

/// What the coordinator runs for an incoming event.
#[derive(Clone, Debug)]
pub struct Dispatch {
    /// The trigger to run and whether it resumes a suspended turn; `None`
    /// when the event is dropped.
    pub run: Option<(Event, bool)>,
    /// The suspended trigger still held afterwards.
    pub pending: Option<Event>,
}

/// The coordinator rule: a retry resumes the held trigger (or is dropped when
/// nothing is held); any other event runs fresh and voids a held retry.
pub open spec fn spec_dispatch(ev: Event, pending: Option<Event>) -> Dispatch {
    match ev {
        Event::Retry => match pending {
            Some(t) => Dispatch { run: Some((t, true)), pending: None },
            None => Dispatch { run: None, pending: None },
        },
        _ => Dispatch { run: Some((ev, false)), pending: None },
    }
}

/// Resolves an incoming event into the turn to run.
pub fn dispatch(ev: Event, pending: Option<Event>) -> (r: Dispatch)
    ensures
        r == spec_dispatch(ev, pending),
{
    match ev {
        Event::Retry => match pending {
            Some(t) => Dispatch { run: Some((t, true)), pending: None },
            None => Dispatch { run: None, pending: None },
        },
        other => Dispatch { run: Some((other, false)), pending: None },
    }
}

/// Once a fresh message is sent, an earlier failure can no longer be retried:
/// dispatching any non-retry event leaves nothing pending, and a later retry
/// is then dropped.
pub proof fn lemma_fresh_trigger_voids_retry(ev: Event, pending: Option<Event>)
    requires
        !(ev is Retry),
    ensures
        spec_dispatch(ev, pending).pending is None,
        spec_dispatch(Event::Retry, spec_dispatch(ev, pending).pending).run is None,
{
}

} // verus!
