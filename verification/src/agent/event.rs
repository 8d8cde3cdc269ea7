//! Unified salience: one appraisal deciding how any incoming event is handled.
//!
//! Both conflict evaluation and mid-turn interruption go through [`appraise`],
//! so "how urgent is this?" is answered in exactly one place.

use vstd::prelude::*;

use crate::text::{is_blank, spec_is_blank};

verus! {

/// Something entering a group: a fresh user message, or a change in the world.
#[derive(Clone, Debug)]
pub enum Event {
    /// The user sent a message. `message_id` is the stored line every agent
    /// marks as read this turn; the text itself already lives in the log.
    User { message_id: String },
    /// An environment change (rain, time passing, an emergency).
    Environment { description: String, urgent: bool },
    /// A manual retry of a turn suspended by a failed agent inference.
    Retry,
}

/// How the system treats an event that arrives while a turn is running.
#[derive(Clone, Copy, Debug, PartialEq, Eq, Structural)]
pub enum Salience {
    /// Urgent or contradictory: preempt now, discarding in-flight work.
    Hard,
    /// Ordinary ambient change: fold in at the next pipeline boundary.
    Soft,
    /// Not significant enough to act on.
    Ignore,
}

/// The appraisal rule: a user message or an urgent change preempts; a blank
/// non-urgent change is ignored; any other change is soft; a stray retry is
/// ignored.
pub open spec fn spec_appraise(event: Event) -> Salience {
    match event {
        Event::User { .. } => Salience::Hard,
        Event::Environment { description, urgent } => if urgent {
            Salience::Hard
        } else if spec_is_blank(description@) {
            Salience::Ignore
        } else {
            Salience::Soft
        },
        Event::Retry => Salience::Ignore,
    }
}

/// The text an event contributes to the Context Stream, if any.
pub open spec fn spec_context_of(event: Event) -> Option<Seq<char>> {
    match event {
        Event::Environment { description, .. } => Some(description@),
        _ => None,
    }
}

impl Event {
    /// The text an agent should see for this event, if any — used when folding
    /// an event into the Context Stream at a pipeline boundary. A user message
    /// is already a conversation line, so it enters the transcript on its own.
    pub fn as_context(&self) -> (r: Option<&str>)
        ensures
            r matches Some(t) ==> spec_context_of(*self) == Some(t@),
            r is None <==> spec_context_of(*self) is None,
    {
        match self {
            Event::Environment { description, .. } => Some(description.as_str()),
            Event::User { .. } | Event::Retry => None,
        }
    }
}

/// Classifies an event arriving mid-turn.
pub fn appraise(event: &Event) -> (r: Salience)
    ensures
        r == spec_appraise(*event),
{
    match event {
        Event::User { .. } => Salience::Hard,
        Event::Environment { description, urgent } => {
            if *urgent {
                Salience::Hard
            } else if is_blank(description.as_str()) {
                Salience::Ignore
            } else {
                Salience::Soft
            }
        },
        Event::Retry => Salience::Ignore,
    }
}

} // verus!
