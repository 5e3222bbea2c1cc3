//! Rule resolution and deferred-deletion scheduling for channel autoclear.
//!
//! The library models the rule table and the deletion queue in memory and
//! states, over those models, which rule wins for a message, when a message
//! passes the content filter, which job is queued, and which jobs a pin
//! retracts.

pub mod commands;
pub mod jobs;
pub mod pattern;
pub mod permissions;
pub mod pipeline;
pub mod rules;
