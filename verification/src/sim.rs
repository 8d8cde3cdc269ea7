//! The simulated agents' turn: every AI member reads the user's message, and
//! one of them, picked at random, answers with a mood and a placeholder reply
//! after a realistic pause.

use vstd::prelude::*;
use vstd::string::*;

use crate::text::{spec_trim, trim};

verus! {

/// A placeholder reply echoing the user's trimmed text in curly quotes, or
/// "Hmm?" for a blank message.
pub open spec fn spec_placeholder_reply(user_text: Seq<char>) -> Seq<char> {
    if spec_trim(user_text).len() == 0 {
        "Hmm?"@
    } else {
        "You said \u{201c}"@ + spec_trim(user_text) + "\u{201d}. (Placeholder reply \u{2014} connect an LLM to make it real.)"@
    }
}

/// A placeholder reply standing in until an LLM is connected.
pub fn placeholder_reply(user_text: &str) -> (r: String)
    ensures
        r@ == spec_placeholder_reply(user_text@),
{
    let text = trim(user_text);
    if text.unicode_len() == 0 {
        return String::from_str("Hmm?");
    }
    let mut r = String::from_str("You said \u{201c}");
    r.append(text.as_str());
    r.append("\u{201d}. (Placeholder reply \u{2014} connect an LLM to make it real.)");
    r
}

/// The moods the simulated replier shows.
pub open spec fn spec_sim_mood(i: int) -> Seq<char> {
    if i == 0 {
        "\u{1f642} pleased"@
    } else if i == 1 {
        "\u{1f914} thinking"@
    } else if i == 2 {
        "\u{2728} inspired"@
    } else {
        "\u{1f606} amused"@
    }
}

/// How many moods the simulated replier picks from.
pub const SIM_MOOD_COUNT: usize = 4;

/// The simulated mood number `i` (below [`SIM_MOOD_COUNT`]).
pub fn sim_mood(i: usize) -> (r: String)
    requires
        i < SIM_MOOD_COUNT,
    ensures
        r@ == spec_sim_mood(i as int),
{
    if i == 0 {
        String::from_str("\u{1f642} pleased")
    } else if i == 1 {
        String::from_str("\u{1f914} thinking")
    } else if i == 2 {
        String::from_str("\u{2728} inspired")
    } else {
        String::from_str("\u{1f606} amused")
    }
}

/// One member's part in a simulated turn.
#[derive(Clone, Debug)]
pub struct SimStep {
    /// The member.
    pub reader: String,
    /// The pause before it acts, in milliseconds.
    pub delay_ms: u64,
    /// For the replier: the mood it shows, then (after [`REPLY_PAUSE_MS`]) the
    /// reply it sends. Every member marks the message read once done.
    pub reply: Option<(String, String)>,
}

/// The pause before the replier shows its mood.
pub const MOOD_DELAY_MS: u64 = 500;

/// The pause between the replier's mood and its reply.
pub const REPLY_PAUSE_MS: u64 = 600;

/// When a silent reader marks the message read: staggered by position.
pub open spec fn spec_read_delay(i: int) -> int {
    400 + i * 160
}

/// Whether a step's reply is this mood and text.
pub open spec fn spec_reply_is(reply: Option<(String, String)>, mood: Seq<char>, text: Seq<char>) -> bool {
    match reply {
        Some((m, t)) => m@ == mood && t@ == text,
        None => false,
    }
}

/// Whether step `step` is reader `i`'s part when `replier` answers.
pub open spec fn spec_step_ok(step: SimStep, reader: Seq<char>, i: int, replier: Seq<char>, mood: Seq<char>, text: Seq<char>) -> bool {
    &&& step.reader@ == reader
    &&& if reader == replier {
        &&& step.delay_ms == MOOD_DELAY_MS
        &&& spec_reply_is(step.reply, mood, text)
    } else {
        step.delay_ms == spec_read_delay(i) && step.reply is None
    }
}

/// The plan of a simulated turn: one step per reader, in order. The reader
/// picked (and any listed under the same id) replies with the picked mood and
/// the placeholder reply; everyone else only reads, staggered.
pub fn plan_turn(readers: &Vec<String>, pick: usize, mood_pick: usize, user_text: &str) -> (r: Vec<SimStep>)
    requires
        pick < readers@.len(),
        mood_pick < SIM_MOOD_COUNT,
        400 + 160 * (readers@.len() - 1) <= u64::MAX,
    ensures
        r@.len() == readers@.len(),
        forall|i: int|
            0 <= i < r@.len() ==> spec_step_ok(
                #[trigger] r@[i],
                readers@[i]@,
                i,
                readers@[pick as int]@,
                spec_sim_mood(mood_pick as int),
                spec_placeholder_reply(user_text@),
            ),
{
    let replier = readers[pick].clone();
    let mood = sim_mood(mood_pick);
    let reply = placeholder_reply(user_text);
    let mut out: Vec<SimStep> = Vec::new();
    let mut i: usize = 0;
    while i < readers.len()
        invariant
            i <= readers@.len(),
            400 + 160 * (readers@.len() - 1) <= u64::MAX,
            pick < readers@.len(),
            replier@ == readers@[pick as int]@,
            mood@ == spec_sim_mood(mood_pick as int),
            reply@ == spec_placeholder_reply(user_text@),
            out@.len() == i,
            forall|j: int|
                0 <= j < i ==> spec_step_ok(
                    #[trigger] out@[j],
                    readers@[j]@,
                    j,
                    readers@[pick as int]@,
                    spec_sim_mood(mood_pick as int),
                    spec_placeholder_reply(user_text@),
                ),
        decreases readers@.len() - i,
    {
        let reader = readers[i].clone();
        assert(160 * i <= 160 * (readers@.len() - 1)) by (nonlinear_arith)
            requires
                i < readers@.len(),
        ;
        let step = if reader == replier {
            SimStep { reader, delay_ms: MOOD_DELAY_MS, reply: Some((mood.clone(), reply.clone())) }
        } else {
            SimStep { reader, delay_ms: 400 + (i as u64) * 160, reply: None }
        };
        out.push(step);
        i = i + 1;
    }
    out
}

} // verus!
