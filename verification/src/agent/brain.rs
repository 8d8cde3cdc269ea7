//! The brain seam — the single piece a real LLM replaces.
//!
//! The orchestrator does the context work and assembles an [`AgentPrompt`]; a
//! brain is a pure "prompt in → decision out" function.

use vstd::prelude::*;

use crate::models::{TokenUsage, Variables};

verus! {

/// One of the four mutually-exclusive things an agent may do on its turn.
#[derive(Clone, Copy, Debug, PartialEq, Eq, Structural)]
pub enum Action {
    /// A spoken line. Enters the Context Stream and the UI.
    Speak,
    /// A line plus a mood; the mood is UI-only.
    SpeakWithMood,
    /// A mood only. UI-only; never the Context Stream.
    Mood,
    /// Processed without responding. Nothing is broadcast.
    Read,
}

/// The output of a single agent turn: exactly what the `respond` tool carries.
#[derive(Clone, Debug)]
pub struct Respond {
    pub action: Action,
    /// Present for [`Action::Speak`] / [`Action::SpeakWithMood`].
    pub message: Option<String>,
    /// Present for [`Action::Mood`] / [`Action::SpeakWithMood`].
    pub mood: Option<String>,
}

impl Respond {
    /// Read — processed silently; nothing is broadcast.
    pub fn read() -> (r: Respond)
        ensures
            r == (Respond { action: Action::Read, message: None, mood: None }),
    {
        Respond { action: Action::Read, message: None, mood: None }
    }

    /// Speak — a spoken line.
    pub fn speak(message: String) -> (r: Respond)
        ensures
            r == (Respond { action: Action::Speak, message: Some(message), mood: None }),
    {
        Respond { action: Action::Speak, message: Some(message), mood: None }
    }

    /// Speak with mood — a spoken line plus a UI-only mood.
    pub fn speak_with_mood(message: String, mood: String) -> (r: Respond)
        ensures
            r == (Respond { action: Action::SpeakWithMood, message: Some(message), mood: Some(mood) }),
    {
        Respond { action: Action::SpeakWithMood, message: Some(message), mood: Some(mood) }
    }

    /// Mood — a UI-only mood, no spoken line.
    pub fn mood(mood: String) -> (r: Respond)
        ensures
            r == (Respond { action: Action::Mood, message: None, mood: Some(mood) }),
    {
        Respond { action: Action::Mood, message: None, mood: Some(mood) }
    }
}

/// A resolved view of the persona an agent speaks as: its identity plus the
/// inherited template variables.
#[derive(Clone, Debug)]
pub struct AgentPersona {
    pub name: String,
    pub system_prompt: String,
    pub variables: Variables,
}

/// One entry in the workspace member directory injected into a prompt.
#[derive(Clone, Debug)]
pub struct MemberInfo {
    pub name: String,
    pub blurb: Option<String>,
    /// True for the single human identity.
    pub is_user: bool,
}

/// The fully-assembled prompt handed to a brain.
#[derive(Clone, Debug)]
pub struct AgentPrompt {
    pub system: String,
    pub conversation: String,
    pub persona_name: String,
    pub last_line: Option<String>,
    pub recallable_memories: Vec<String>,
}

/// A sanitized inference failure: the HTTP status and its canonical reason.
#[derive(Clone, Debug)]
pub struct BrainError {
    pub status: Option<u16>,
    pub reason: String,
}

/// What an agent's turn produced: a decision, or a failure after retries.
#[derive(Clone, Debug)]
pub enum Outcome {
    Responded(Respond),
    Failed(BrainError),
}

/// A brain's output: the outcome, optional telemetry, and anything the agent
/// chose to remember this turn.
#[derive(Clone, Debug)]
pub struct Decision {
    pub outcome: Outcome,
    pub usage: Option<TokenUsage>,
    pub remembered: Vec<String>,
}

impl Decision {
    /// A decision with no usage telemetry and nothing remembered — what the
    /// rule brain reports.
    pub fn from_respond(respond: Respond) -> (d: Decision)
        ensures
            d.outcome == Outcome::Responded(respond),
            d.usage is None,
            d.remembered@.len() == 0,
    {
        Decision { outcome: Outcome::Responded(respond), usage: None, remembered: Vec::new() }
    }
}

/// A request to fold a group's oldest lines into its running summary.
#[derive(Clone, Debug)]
pub struct SummaryRequest {
    pub prior: Option<String>,
    pub lines: Vec<String>,
}

/// The result of a compression pass.
#[derive(Clone, Debug)]
pub struct Summary {
    pub text: String,
    pub usage: Option<TokenUsage>,
}

/// A request for conversation-starter suggestions for a group.
#[derive(Clone, Debug)]
pub struct SuggestionRequest {
    pub members: Vec<MemberInfo>,
    pub summary: Option<String>,
    pub recent: Vec<String>,
    pub now: String,
    pub time_of_day: String,
    pub language: Option<String>,
    pub min_count: usize,
}

/// The result of a suggestion pass. Empty `prompts` means "keep the cache".
#[derive(Clone, Debug)]
pub struct Suggestions {
    pub prompts: Vec<String>,
    pub usage: Option<TokenUsage>,
    pub system: String,
    pub context: String,
}

impl Suggestions {
    /// No suggestions, no usage, no trace text.
    pub fn empty() -> (s: Suggestions)
        ensures
            s.prompts@.len() == 0,
            s.usage is None,
            s.system@.len() == 0,
            s.context@.len() == 0,
    {
        Suggestions { prompts: Vec::new(), usage: None, system: String::new(), context: String::new() }
    }
}

/// The single inference seam: a prompt in, a decision out. The bundled rule
/// brain implements it here; a model-backed brain implements it in the
/// server around this library.
pub trait AgentBrain {
    /// Decides this agent's single action for the assembled prompt.
    fn decide(&self, prompt: &AgentPrompt) -> Decision;

    /// Folds `request.lines` into `request.prior`. A brain with no model keeps
    /// the prior summary unchanged.
    fn summarize(&self, request: &SummaryRequest) -> (r: Result<Summary, BrainError>)
        default_ensures
            r matches Ok(s) && s.usage is None && s.text@ == (match request.prior {
                Some(p) => p@,
                None => Seq::<char>::empty(),
            }),
    {
        let text = match &request.prior {
            Some(p) => p.clone(),
            None => String::new(),
        };
        Ok(Summary { text, usage: None })
    }

    /// Produces conversation starters; a brain with no model offers none.
    fn suggest(&self, request: &SuggestionRequest) -> (r: Result<Suggestions, BrainError>)
        default_ensures
            r matches Ok(s) && s.prompts@.len() == 0 && s.usage is None && s.system@.len() == 0
                && s.context@.len() == 0,
    {
        Ok(Suggestions::empty())
    }
}

} // verus!
