//! The multi-agent conversation engine: events and salience, the brain seam,
//! the rule brain, output checking, and the turn rules.

pub mod event;
pub mod brain;
pub mod output;
pub mod mock;
pub mod turn;
pub mod prompt;
pub mod tools;
pub mod ratelimit;
pub mod framing;
