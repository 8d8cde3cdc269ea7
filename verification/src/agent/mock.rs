//! A deterministic, rule-based brain standing in for an LLM.
//!
//! An agent speaks (with a mood) when addressed by name, and otherwise splits
//! between speaking, showing a mood, and reading silently based on a stable
//! hash of who it is and how far the conversation has gone.

use vstd::prelude::*;
use vstd::string::*;
use vstd::utf8::*;

use crate::agent::brain::{
    AgentBrain, AgentPrompt, BrainError, Decision, Outcome, Respond, SuggestionRequest, Suggestions,
};
use crate::models::now_ms;
use crate::text::{contains_str, spec_contains, spec_trim, trim, views};

verus! {

/// Lowercase under Unicode's full case mapping (what `str::to_lowercase` gives).
pub uninterp spec fn unicode_lowercase(s: Seq<char>) -> Seq<char>;

/// `s.to_lowercase()` (full Unicode case mapping).
#[verifier::external_body]
pub(crate) fn to_lowercase(s: &str) -> (r: String)
    ensures
        r@ == unicode_lowercase(s@),
{
    s.to_lowercase()
}

/// The four canned moods.
pub open spec fn spec_mood(i: int) -> Seq<char> {
    if i == 0 {
        "🙂 pleased"@
    } else if i == 1 {
        "🤔 thinking"@
    } else if i == 2 {
        "✨ inspired"@
    } else {
        "😆 amused"@
    }
}

fn mood_at(i: u64) -> (r: String)
    requires
        i < 4,
    ensures
        r@ == spec_mood(i as int),
{
    if i == 0 {
        String::from_str("🙂 pleased")
    } else if i == 1 {
        String::from_str("🤔 thinking")
    } else if i == 2 {
        String::from_str("✨ inspired")
    } else {
        String::from_str("😆 amused")
    }
}

/// The FNV-style offset folded into the seed.
pub const MIX_OFFSET: u64 = 0xcbf2_9ce4_8422_2325;

/// The FNV-style prime.
pub const MIX_PRIME: u64 = 0x0000_0100_0000_01b3;

/// The seed constant a clock-seeded brain folds in.
pub const SEED_SALT: u64 = 0x9E37_79B9_7F4A_7C15;

/// Folds bytes into the running hash: xor each byte in, then multiply.
pub open spec fn spec_fold_bytes(h: u64, bytes: Seq<u8>) -> u64
    decreases bytes.len(),
{
    if bytes.len() == 0 {
        h
    } else {
        vstd::wrapping::u64_specs::wrapping_mul(
            spec_fold_bytes(h, bytes.drop_last()) ^ (bytes.last() as u64),
            MIX_PRIME,
        )
    }
}

/// The stable hash of the seed, a persona name's UTF-8 bytes, and the
/// conversation length.
pub open spec fn spec_mix(seed: u64, name: Seq<char>, step: u64) -> u64 {
    vstd::wrapping::u64_specs::wrapping_mul(
        spec_fold_bytes(seed ^ MIX_OFFSET, encode_utf8(name)) ^ step,
        MIX_PRIME,
    )
}

/// A small, stable hash mixing the seed, a persona name, and the
/// conversation length — enough to vary choices per agent and per step.
pub fn mix(seed: u64, persona_name: &str, step: usize) -> (r: u64)
    ensures
        r == spec_mix(seed, persona_name@, step as u64),
{
    let bytes = persona_name.as_bytes();
    let mut h: u64 = seed ^ MIX_OFFSET;
    let mut i: usize = 0;
    while i < bytes.len()
        invariant
            bytes@ == encode_utf8(persona_name@),
            i <= bytes@.len(),
            h == spec_fold_bytes(seed ^ MIX_OFFSET, bytes@.subrange(0, i as int)),
        decreases bytes@.len() - i,
    {
        h = h ^ (bytes[i] as u64);
        h = h.wrapping_mul(MIX_PRIME);
        i = i + 1;
        assert(bytes@.subrange(0, i as int).drop_last() =~= bytes@.subrange(0, i - 1));
    }
    assert(bytes@.subrange(0, bytes@.len() as int) =~= bytes@);
    h = h ^ (step as u64);
    h.wrapping_mul(MIX_PRIME)
}

/// The placeholder line echoing what was just said.
pub open spec fn spec_reply_line(last: Seq<char>) -> Seq<char> {
    let heard = spec_trim(last);
    if heard.len() == 0 {
        "Hmm?"@
    } else {
        "You said “"@ + heard + "”. (Placeholder reply — connect an LLM to make it real.)"@
    }
}

/// The placeholder reply, echoing what was just said.
pub fn reply_line(last: &str) -> (r: String)
    ensures
        r@ == spec_reply_line(last@),
{
    let heard = trim(last);
    if heard.unicode_len() == 0 {
        return String::from_str("Hmm?");
    }
    let mut out = String::from_str("You said “");
    out.append(heard.as_str());
    out.append("”. (Placeholder reply — connect an LLM to make it real.)");
    out
}

/// The canned openers for a part of day; `night` doubles as the fallback.
pub open spec fn spec_canned_openers(time_of_day: Seq<char>) -> Seq<Seq<char>> {
    if time_of_day == "morning"@ {
        seq![
            "Good morning! What's everyone up to today?"@,
            "Morning — any plans for the day?"@,
            "Hey, how did everyone sleep?"@,
        ]
    } else if time_of_day == "afternoon"@ {
        seq![
            "How's your afternoon going?"@,
            "What's everyone working on right now?"@,
            "Anyone up for a quick chat?"@,
        ]
    } else if time_of_day == "evening"@ {
        seq![
            "Evening! How was your day?"@,
            "What's everyone doing tonight?"@,
            "Any highlights from today?"@,
        ]
    } else {
        seq![
            "Still up? What's on your mind?"@,
            "Quiet night — what are you thinking about?"@,
            "Anyone else awake right now?"@,
        ]
    }
}

fn three(a: &str, b: &str, c: &str) -> (r: Vec<String>)
    ensures
        views(r@) == seq![a@, b@, c@],
{
    let mut v: Vec<String> = Vec::new();
    v.push(String::from_str(a));
    v.push(String::from_str(b));
    v.push(String::from_str(c));
    assert(views(v@) =~= seq![a@, b@, c@]);
    v
}

/// A small fixed set of conversation starters for a part of day.
pub fn canned_openers(time_of_day: &str) -> (r: Vec<String>)
    ensures
        views(r@) == spec_canned_openers(time_of_day@),
{
    let t = String::from_str(time_of_day);
    if t == String::from_str("morning") {
        three(
            "Good morning! What's everyone up to today?",
            "Morning — any plans for the day?",
            "Hey, how did everyone sleep?",
        )
    } else if t == String::from_str("afternoon") {
        three(
            "How's your afternoon going?",
            "What's everyone working on right now?",
            "Anyone up for a quick chat?",
        )
    } else if t == String::from_str("evening") {
        three("Evening! How was your day?", "What's everyone doing tonight?", "Any highlights from today?")
    } else {
        three(
            "Still up? What's on your mind?",
            "Quiet night — what are you thinking about?",
            "Anyone else awake right now?",
        )
    }
}

/// The rule-based brain the server uses until an LLM is connected.
pub struct RuleBrain {
    pub seed: u64,
}

/// The text the rule brain treats as the last line.
pub open spec fn spec_last_line(prompt: AgentPrompt) -> Seq<char> {
    match prompt.last_line {
        Some(l) => l@,
        None => Seq::empty(),
    }
}

/// Whether the prompt names the persona in its last line (case-insensitively,
/// by Unicode lowercase).
pub open spec fn spec_addressed(prompt: AgentPrompt) -> bool {
    let name = unicode_lowercase(prompt.persona_name@);
    name.len() > 0 && spec_contains(unicode_lowercase(spec_last_line(prompt)), name)
}

/// The roll for a prompt: the hash of the seed, the persona name, and the
/// conversation's UTF-8 length.
pub open spec fn spec_roll(seed: u64, prompt: AgentPrompt) -> u64 {
    spec_mix(seed, prompt.persona_name@, (encode_utf8(prompt.conversation@).len() as usize) as u64)
}

/// The rule brain's decision: a reply with a mood when addressed; otherwise
/// speak, show a mood, or read, by the roll modulo 3. The mood is picked by
/// the roll plus the name's UTF-8 length, modulo 4.
pub open spec fn spec_rule_decide(seed: u64, prompt: AgentPrompt) -> (Seq<char>, Option<Seq<char>>, Option<Seq<char>>) {
    let roll = spec_roll(seed, prompt);
    let mood = spec_mood(((roll + (encode_utf8(prompt.persona_name@).len() as usize)) % 4) as int);
    let reply = spec_reply_line(spec_last_line(prompt));
    if spec_addressed(prompt) {
        ("speakWithMood"@, Some(reply), Some(mood))
    } else if roll % 3 == 0 {
        ("speak"@, Some(reply), None)
    } else if roll % 3 == 1 {
        ("mood"@, None, Some(mood))
    } else {
        ("read"@, None, None)
    }
}

/// An addressed persona always replies: when its (non-empty, lowercased)
/// name occurs in the lowercased last line, the rule brain speaks with a
/// mood, its line is the reply to that last line, and its mood is one of the
/// four canned ones.
pub proof fn lemma_addressed_persona_replies(seed: u64, prompt: AgentPrompt)
    requires
        unicode_lowercase(prompt.persona_name@).len() > 0,
        spec_contains(unicode_lowercase(spec_last_line(prompt)), unicode_lowercase(prompt.persona_name@)),
    ensures
        spec_rule_decide(seed, prompt).0 == "speakWithMood"@,
        spec_rule_decide(seed, prompt).1 == Some(spec_reply_line(spec_last_line(prompt))),
        exists|i: int| 0 <= i < 4 && spec_rule_decide(seed, prompt).2 == Some(#[trigger] spec_mood(i)),
{
    let roll = spec_roll(seed, prompt);
    let i = ((roll + (encode_utf8(prompt.persona_name@).len() as usize)) % 4) as int;
    assert(spec_rule_decide(seed, prompt).2 == Some(spec_mood(i)));
}

/// A persona that is not addressed never speaks with a mood: by its seeded
/// roll (the hash of seed, name and conversation length) modulo 3 it speaks
/// the reply to the last line, shows one of the four moods, or only reads.
pub proof fn lemma_unaddressed_persona_rolls(seed: u64, prompt: AgentPrompt)
    requires
        !spec_addressed(prompt),
    ensures
        spec_rule_decide(seed, prompt).0 == "speak"@ ==> spec_rule_decide(seed, prompt).1 == Some(
            spec_reply_line(spec_last_line(prompt)),
        ) && spec_rule_decide(seed, prompt).2 is None,
        spec_rule_decide(seed, prompt).0 == "mood"@ ==> spec_rule_decide(seed, prompt).1 is None && exists|i: int|
            0 <= i < 4 && spec_rule_decide(seed, prompt).2 == Some(#[trigger] spec_mood(i)),
        spec_rule_decide(seed, prompt).0 == "read"@ ==> spec_rule_decide(seed, prompt).1 is None
            && spec_rule_decide(seed, prompt).2 is None,
        spec_rule_decide(seed, prompt).0 == "speak"@ || spec_rule_decide(seed, prompt).0 == "mood"@
            || spec_rule_decide(seed, prompt).0 == "read"@,
        spec_roll(seed, prompt) % 3 == 0 <==> spec_rule_decide(seed, prompt).0 == "speak"@,
        spec_roll(seed, prompt) % 3 == 1 <==> spec_rule_decide(seed, prompt).0 == "mood"@,
        spec_roll(seed, prompt) % 3 == 2 <==> spec_rule_decide(seed, prompt).0 == "read"@,
{
    let roll = spec_roll(seed, prompt);
    let i = ((roll + (encode_utf8(prompt.persona_name@).len() as usize)) % 4) as int;
    reveal_strlit("speak");
    reveal_strlit("mood");
    reveal_strlit("read");
    assert("speak"@ != "mood"@ && "speak"@ != "read"@ && "mood"@ != "read"@) by {
        assert("speak"@.len() != "mood"@.len());
        assert("speak"@.len() != "read"@.len());
        assert("mood"@[0] != "read"@[0]);
    }
    if roll % 3 == 1 {
        assert(spec_rule_decide(seed, prompt).2 == Some(spec_mood(i)));
    }
}

/// A respond's shape: its action label and the views of its line and mood.
pub open spec fn spec_respond_shape(r: Respond) -> (Seq<char>, Option<Seq<char>>, Option<Seq<char>>) {
    (
        crate::agent::turn::spec_action_label(r.action),
        crate::models::opt_view(r.message),
        crate::models::opt_view(r.mood),
    )
}

fn mood_index(roll: u64, name_bytes: usize) -> (r: u64)
    ensures
        r == (roll + name_bytes) % 4,
        r < 4,
{
    let idx = (roll % 4 + (name_bytes as u64) % 4) % 4;
    assert(idx == (roll + name_bytes) % 4) by (nonlinear_arith)
        requires
            idx == (roll % 4 + (name_bytes as u64) % 4) % 4,
    ;
    idx
}

fn addressed(prompt: &AgentPrompt) -> (r: bool)
    ensures
        r == spec_addressed(*prompt),
{
    proof {
        reveal_strlit("");
        assert(""@ =~= Seq::<char>::empty());
    }
    let name = to_lowercase(prompt.persona_name.as_str());
    let last: &str = match &prompt.last_line {
        Some(l) => l.as_str(),
        None => "",
    };
    let lowered_last = to_lowercase(last);
    name.unicode_len() > 0 && contains_str(lowered_last.as_str(), name.as_str())
}

/// The seed drawn from a clock reading of `t` milliseconds.
pub open spec fn spec_clock_seed(t: i64) -> u64 {
    (t as u64) ^ SEED_SALT
}

impl RuleBrain {
    /// A brain seeded from the clock — varies run to run.
    pub fn new() -> (r: RuleBrain)
        ensures
            exists|t: i64| #[trigger] spec_clock_seed(t) == r.seed,
    {
        let t = now_ms();
        assert(spec_clock_seed(t) == (t as u64) ^ SEED_SALT);
        RuleBrain { seed: (t as u64) ^ SEED_SALT }
    }

    /// A brain with a fixed seed, for reproducible behaviour.
    pub fn seeded(seed: u64) -> (r: RuleBrain)
        ensures
            r.seed == seed,
    {
        RuleBrain { seed }
    }

    /// The rule decision for a prompt.
    pub fn decide_rule(&self, prompt: &AgentPrompt) -> (d: Decision)
        ensures
            d.outcome matches Outcome::Responded(r) && spec_respond_shape(r) == spec_rule_decide(
                self.seed,
                *prompt,
            ),
            d.usage is None,
            d.remembered@.len() == 0,
    {
        proof {
            reveal_strlit("");
        }
        let last: &str = match &prompt.last_line {
            Some(l) => l.as_str(),
            None => "",
        };
        let is_addressed = addressed(prompt);
        let step = prompt.conversation.as_str().len();
        let roll = mix(self.seed, prompt.persona_name.as_str(), step);
        let name_bytes = prompt.persona_name.as_str().len();
        let mood = mood_at(mood_index(roll, name_bytes));
        let respond = if is_addressed {
            Respond::speak_with_mood(reply_line(last), mood)
        } else if roll % 3 == 0 {
            Respond::speak(reply_line(last))
        } else if roll % 3 == 1 {
            Respond::mood(mood)
        } else {
            Respond::read()
        };
        Decision::from_respond(respond)
    }
}

impl AgentBrain for RuleBrain {
    fn decide(&self, prompt: &AgentPrompt) -> (d: Decision)
        ensures
            d.outcome matches Outcome::Responded(r) && spec_respond_shape(r) == spec_rule_decide(
                self.seed,
                *prompt,
            ),
            d.usage is None,
            d.remembered@.len() == 0,
    {
        self.decide_rule(prompt)
    }

    fn suggest(&self, request: &SuggestionRequest) -> (r: Result<Suggestions, BrainError>)
        ensures
            r matches Ok(s) && views(s.prompts@) == spec_canned_openers(request.time_of_day@)
                && s.usage is None && s.system@.len() == 0 && s.context@.len() == 0,
    {
        let prompts = canned_openers(request.time_of_day.as_str());
        Ok(Suggestions { prompts, usage: None, system: String::new(), context: String::new() })
    }
}

} // verus!
